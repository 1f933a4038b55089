//! The identity of a node on the ring.

use crate::common::largeinteger::LargeInteger;
use vstd::prelude::*;

verus! {

/// A node's identity on the ring: a 128-bit integer. Two identities are
/// equal where their integers are.
#[derive(Copy, Clone, Debug, PartialEq, Eq, Structural, Hash)]
pub struct NodeId {
    pub id_value: LargeInteger,
}

impl NodeId {
    /// The identity zero.
    pub fn default() -> (id: NodeId)
        ensures
            id.id_value.low == 0,
            id.id_value.high == 0,
    {
        NodeId { id_value: LargeInteger::default() }
    }

    pub fn new(id_value: LargeInteger) -> (id: NodeId)
        ensures
            id.id_value == id_value,
    {
        NodeId { id_value }
    }
}

} // verus!
