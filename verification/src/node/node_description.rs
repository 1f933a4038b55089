//! What is known of a node.

use super::node_instance::NodeInstance;
use std::collections::HashMap;
use vstd::prelude::*;

verus! {

/// The state of a node as an update reports it. A description replaces the
/// earlier one as a whole.
pub struct NodeDescription {
    pub node_instance: NodeInstance,
    pub is_up: bool,
    /// For each metric, the share of the capacity that may be used.
    pub capacity_ratios: HashMap<String, u32>,
    /// For each metric, the capacity of the node.
    pub capacities: HashMap<String, u32>,
}

impl NodeDescription {
    /// A node with identity zero that is up and has no capacities.
    pub fn default() -> (d: NodeDescription)
        ensures
            d.node_instance.id.id_value == 0,
            d.node_instance.instance_id == 0,
            d.is_up,
            d.capacity_ratios@ == Map::<String, u32>::empty(),
            d.capacities@ == Map::<String, u32>::empty(),
    {
        NodeDescription {
            node_instance: NodeInstance::default(),
            is_up: true,
            capacity_ratios: HashMap::new(),
            capacities: HashMap::new(),
        }
    }

    pub fn new(
        node_instance: NodeInstance,
        is_up: bool,
        capacity_ratios: HashMap<String, u32>,
        capacities: HashMap<String, u32>,
    ) -> (d: NodeDescription)
        ensures
            d.node_instance == node_instance,
            d.is_up == is_up,
            d.capacity_ratios == capacity_ratios,
            d.capacities == capacities,
    {
        NodeDescription { node_instance, is_up, capacity_ratios, capacities }
    }
}

} // verus!
