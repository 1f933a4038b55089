//! What is known of an application.

use std::collections::HashMap;
use vstd::prelude::*;

verus! {

/// The capacity that an application may use of one metric.
pub struct ApplicationCapacitiesDescription {
    pub metric_name: String,
    pub total_capacity: u32,
    pub max_instance_capacity: u32,
    pub reservation_capacity: u32,
}

/// The state of an application as an update reports it. The name is the key
/// by which the snapshot holds the application.
pub struct ApplicationDescription {
    pub app_name: String,
    /// For each metric, what the application may use of it.
    pub capacities: HashMap<String, ApplicationCapacitiesDescription>,
    pub scaleout_count: i32,
    pub minimum_nodes: i32,
    pub application_id: u64,
}

impl ApplicationDescription {
    pub fn new(
        app_name: String,
        capacities: HashMap<String, ApplicationCapacitiesDescription>,
        scaleout_count: i32,
        minimum_nodes: i32,
        application_id: u64,
    ) -> (d: ApplicationDescription)
        ensures
            d.app_name == app_name,
            d.capacities == capacities,
            d.scaleout_count == scaleout_count,
            d.minimum_nodes == minimum_nodes,
            d.application_id == application_id,
    {
        ApplicationDescription { app_name, capacities, scaleout_count, minimum_nodes, application_id }
    }
}

} // verus!
