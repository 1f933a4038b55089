//! All that the reliability subsystem knows of a node.

use crate::node::node_instance::NodeInstance;
use crate::reliability::nodedeactivationintent::NodeDeactivationIntent;
use crate::reliability::nodedeactivationstatus::NodeDeactivationStatus;
use std::collections::HashMap;
use vstd::prelude::*;

verus! {

/// A node with its deactivation, its domains and its properties.
pub struct NodeDescription {
    pub node_instance: NodeInstance,
    pub is_up: bool,
    pub deactivation_intent: NodeDeactivationIntent,
    pub deactivation_status: NodeDeactivationStatus,
    pub node_properties: HashMap<String, String>,
    pub fault_domain_id: String,
    pub upgrade_domain_id: String,
    /// For each metric, the share of the capacity that may be used.
    pub capacity_ratios: HashMap<String, u32>,
    /// For each metric, the capacity of the node.
    pub capacities: HashMap<String, u32>,
    pub is_pending_close: bool,
    pub is_replica_uploaded: bool,
}

impl NodeDescription {
    /// A node with identity zero that is down, is not being deactivated,
    /// and of which nothing else is known.
    pub fn default() -> (d: NodeDescription)
        ensures
            d.node_instance.id.id_value == 0,
            d.node_instance.instance_id == 0,
            !d.is_up,
            d.deactivation_intent == NodeDeactivationIntent::NoIntent,
            d.deactivation_status == NodeDeactivationStatus::NoStatus,
            d.node_properties@ == Map::<String, String>::empty(),
            d.fault_domain_id@ == Seq::<char>::empty(),
            d.upgrade_domain_id@ == Seq::<char>::empty(),
            d.capacity_ratios@ == Map::<String, u32>::empty(),
            d.capacities@ == Map::<String, u32>::empty(),
            !d.is_pending_close,
            !d.is_replica_uploaded,
    {
        NodeDescription {
            node_instance: NodeInstance::default(),
            is_up: false,
            deactivation_intent: NodeDeactivationIntent::NoIntent,
            deactivation_status: NodeDeactivationStatus::NoStatus,
            node_properties: HashMap::new(),
            fault_domain_id: String::new(),
            upgrade_domain_id: String::new(),
            capacity_ratios: HashMap::new(),
            capacities: HashMap::new(),
            is_pending_close: false,
            is_replica_uploaded: false,
        }
    }

    pub fn new(
        node_instance: NodeInstance,
        is_up: bool,
        deactivation_intent: NodeDeactivationIntent,
        deactivation_status: NodeDeactivationStatus,
        node_properties: HashMap<String, String>,
        fault_domain_id: String,
        upgrade_domain_id: String,
        capacity_ratios: HashMap<String, u32>,
        capacities: HashMap<String, u32>,
        is_pending_close: bool,
        is_replica_uploaded: bool,
    ) -> (d: NodeDescription)
        ensures
            d.node_instance == node_instance,
            d.is_up == is_up,
            d.deactivation_intent == deactivation_intent,
            d.deactivation_status == deactivation_status,
            d.node_properties == node_properties,
            d.fault_domain_id == fault_domain_id,
            d.upgrade_domain_id == upgrade_domain_id,
            d.capacity_ratios == capacity_ratios,
            d.capacities == capacities,
            d.is_pending_close == is_pending_close,
            d.is_replica_uploaded == is_replica_uploaded,
    {
        NodeDescription {
            node_instance,
            is_up,
            deactivation_intent,
            deactivation_status,
            node_properties,
            fault_domain_id,
            upgrade_domain_id,
            capacity_ratios,
            capacities,
            is_pending_close,
            is_replica_uploaded,
        }
    }
}

} // verus!
