//! How many replicas may be in build on a node.

use crate::node::node_instance::NodeInstance;
use vstd::prelude::*;

verus! {

/// The limits on replicas in build on one node, for all phases together and
/// for each phase.
pub struct InBuildLimits {
    pub node_instance: NodeInstance,
    pub global_in_build_limit: i32,
    pub placement_in_build_limit: i32,
    pub constraint_check_in_build_limit: i32,
    pub balancing_in_build_limit: i32,
}

impl InBuildLimits {
    /// Every limit zero, on the node with identity zero.
    pub fn default() -> (limits: InBuildLimits)
        ensures
            limits.node_instance.id.id_value == 0,
            limits.node_instance.instance_id == 0,
            limits.global_in_build_limit == 0,
            limits.placement_in_build_limit == 0,
            limits.constraint_check_in_build_limit == 0,
            limits.balancing_in_build_limit == 0,
    {
        InBuildLimits {
            node_instance: NodeInstance::default(),
            global_in_build_limit: 0,
            placement_in_build_limit: 0,
            constraint_check_in_build_limit: 0,
            balancing_in_build_limit: 0,
        }
    }

    pub fn new(
        node_instance: NodeInstance,
        global_in_build_limit: i32,
        placement_in_build_limit: i32,
        constraint_check_in_build_limit: i32,
        balancing_in_build_limit: i32,
    ) -> (limits: InBuildLimits)
        ensures
            limits.node_instance == node_instance,
            limits.global_in_build_limit == global_in_build_limit,
            limits.placement_in_build_limit == placement_in_build_limit,
            limits.constraint_check_in_build_limit == constraint_check_in_build_limit,
            limits.balancing_in_build_limit == balancing_in_build_limit,
    {
        InBuildLimits {
            node_instance,
            global_in_build_limit,
            placement_in_build_limit,
            constraint_check_in_build_limit,
            balancing_in_build_limit,
        }
    }
}

} // verus!
