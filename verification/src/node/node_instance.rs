//! A node together with the generation it is in.

use super::node_id::NodeId;
use vstd::prelude::*;

verus! {

/// A node identity and the count of how often that node has come up.
#[derive(Debug, Clone, Copy)]
pub struct NodeInstance {
    pub id: NodeId,
    pub instance_id: u64,
}

impl Default for NodeInstance {
    fn default() -> (instance: NodeInstance)
        ensures
            instance.id.id_value == 0,
            instance.instance_id == 0,
    {
        NodeInstance { id: NodeId::default(), instance_id: 0 }
    }
}

impl NodeInstance {
    pub fn new(id: NodeId, instance_id: u64) -> (instance: NodeInstance)
        ensures
            instance.id == id,
            instance.instance_id == instance_id,
    {
        NodeInstance { id, instance_id }
    }
}

} // verus!
