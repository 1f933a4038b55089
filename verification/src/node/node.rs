//! A node as the snapshot holds it.

use super::node_description::NodeDescription;
use super::node_id::NodeId;
use vstd::prelude::*;

verus! {

/// A node of the cluster.
pub struct Node {
    pub node_description: NodeDescription,
}

impl Node {
    /// The identity by which the snapshot keys this node.
    pub open spec fn key(&self) -> u128 {
        self.node_description.node_instance.id.id_value
    }

    pub fn node_id(&self) -> (id: NodeId)
        ensures
            id == self.node_description.node_instance.id,
    {
        self.node_description.node_instance.id
    }
}

} // verus!
