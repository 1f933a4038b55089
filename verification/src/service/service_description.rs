//! What is known of a service.

use super::service_metric::ServiceMetric;
use vstd::prelude::*;

verus! {

/// The state of a service as an update reports it. The service name is the
/// key by which the snapshot holds the service.
pub struct ServiceDescription {
    pub service_name: String,
    pub service_type_name: String,
    pub application_name: String,
    pub is_stateful: bool,
    /// The placement constraint, an expression that the engine does not read.
    pub placement_constraints: String,
    pub affinitized_service: String,
    pub aligned_affinity: bool,
    pub metrics: Vec<ServiceMetric>,
    pub default_primary_move_cost: u32,
    pub default_secondary_move_cost: u32,
    pub default_auxiliary_move_cost: u32,
    pub on_every_node: bool,
    pub allow_multiple_instances_on_node: bool,
    pub partition_count: i32,
    pub target_replica_set_size: i32,
    pub has_persisted_state: bool,
    pub service_id: u64,
    pub application_id: u64,
    pub service_instance: u64,
}

impl ServiceDescription {
    /// A service with empty names, no metrics, every count zero and every
    /// flag unset.
    pub fn default() -> (d: ServiceDescription)
        ensures
            d.service_name@ == Seq::<char>::empty(),
            d.service_type_name@ == Seq::<char>::empty(),
            d.application_name@ == Seq::<char>::empty(),
            d.placement_constraints@ == Seq::<char>::empty(),
            d.affinitized_service@ == Seq::<char>::empty(),
            d.metrics@ == Seq::<ServiceMetric>::empty(),
            !d.is_stateful && !d.aligned_affinity && !d.on_every_node,
            !d.allow_multiple_instances_on_node && !d.has_persisted_state,
            d.default_primary_move_cost == 0,
            d.default_secondary_move_cost == 0,
            d.default_auxiliary_move_cost == 0,
            d.partition_count == 0,
            d.target_replica_set_size == 0,
            d.service_id == 0,
            d.application_id == 0,
            d.service_instance == 0,
    {
        ServiceDescription {
            service_name: String::new(),
            service_type_name: String::new(),
            application_name: String::new(),
            is_stateful: false,
            placement_constraints: String::new(),
            affinitized_service: String::new(),
            aligned_affinity: false,
            metrics: Vec::new(),
            default_primary_move_cost: 0,
            default_secondary_move_cost: 0,
            default_auxiliary_move_cost: 0,
            on_every_node: false,
            allow_multiple_instances_on_node: false,
            partition_count: 0,
            target_replica_set_size: 0,
            has_persisted_state: false,
            service_id: 0,
            application_id: 0,
            service_instance: 0,
        }
    }
}

} // verus!
