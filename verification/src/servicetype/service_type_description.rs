//! What is known of a service type.

use crate::node::node_id::NodeId;
use std::collections::HashSet;
use vstd::prelude::*;

verus! {

/// The state of a service type as an update reports it. The name is the key
/// by which the snapshot holds the service type.
pub struct ServiceTypeDescription {
    pub name: String,
    /// The nodes that must not host a service of this type.
    pub block_list: HashSet<NodeId>,
}

impl Default for ServiceTypeDescription {
    /// A service type with the empty name that no node is blocked for.
    fn default() -> (d: ServiceTypeDescription)
        ensures
            d.name@ == Seq::<char>::empty(),
            d.block_list@ == Set::<NodeId>::empty(),
    {
        ServiceTypeDescription { name: String::new(), block_list: HashSet::new() }
    }
}

impl ServiceTypeDescription {
    pub fn new(name: String, block_list: HashSet<NodeId>) -> (d: ServiceTypeDescription)
        ensures
            d.name == name,
            d.block_list == block_list,
    {
        ServiceTypeDescription { name, block_list }
    }
}

} // verus!
