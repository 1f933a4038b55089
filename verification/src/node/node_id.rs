//! The identity of a node in the cluster.

use crate::text::{decimal, decimal_string};
use vstd::prelude::*;
use vstd::string::*;

verus! {

/// A node's identity. Identities are unique in the cluster and totally
/// ordered by their value.
#[derive(Copy, Clone, Debug, PartialEq, Eq, Structural, PartialOrd, Ord, Hash)]
pub struct NodeId {
    pub id_value: u128,
}

impl NodeId {
    /// The identity with value zero.
    pub fn default() -> (id: NodeId)
        ensures
            id.id_value == 0,
    {
        NodeId { id_value: 0 }
    }

    /// The identity with the given value.
    pub fn new(id_value: u128) -> (id: NodeId)
        ensures
            id.id_value == id_value,
    {
        NodeId { id_value }
    }

    /// The identity that follows this one, or `None` after the greatest.
    /// Asking does not change `self`.
    pub fn next(&self) -> (r: Option<NodeId>)
        ensures
            r == if self.id_value < u128::MAX {
                Some(NodeId { id_value: (self.id_value + 1) as u128 })
            } else {
                None
            },
    {
        match self.id_value.checked_add(1) {
            Some(v) => Some(NodeId { id_value: v }),
            None => None,
        }
    }

    /// How two identities stand to each other: -1 where `self` is the
    /// smaller, 0 where they are the same, 1 where `self` is the greater.
    pub open spec fn spec_compare(self, other: NodeId) -> int {
        if self.id_value < other.id_value {
            -1
        } else if self.id_value == other.id_value {
            0
        } else {
            1
        }
    }

    /// Compares two identities by value.
    pub fn compare(&self, other: &NodeId) -> (r: i32)
        ensures
            r == self.spec_compare(*other),
    {
        if self.id_value < other.id_value {
            -1
        } else if self.id_value == other.id_value {
            0
        } else {
            1
        }
    }

    /// The text of an identity as it stands in a proposal.
    pub open spec fn text(self) -> Seq<char> {
        "NodeId { id_value: "@ + decimal(self.id_value as nat) + " }"@
    }

    /// Writes the identity out, in the form that `Debug` gives it.
    pub fn debug_string(&self) -> (s: String)
        ensures
            s@ == self.text(),
    {
        let mut s = String::from_str("NodeId { id_value: ");
        let digits = decimal_string(self.id_value);
        s.append(digits.as_str());
        s.append(" }");
        s
    }
}

/// Comparing identities is a total order: turning the two around turns the
/// result around, equal identities alone compare as the same, and what is
/// not greater than a second that is not greater than a third is not
/// greater than the third.
pub proof fn lemma_compare_is_a_total_order(a: NodeId, b: NodeId, c: NodeId)
    ensures
        a.spec_compare(b) == -b.spec_compare(a),
        a.spec_compare(b) == 0 <==> a == b,
        a.spec_compare(b) <= 0 && b.spec_compare(c) <= 0 ==> a.spec_compare(c) <= 0,
{
}

} // verus!
