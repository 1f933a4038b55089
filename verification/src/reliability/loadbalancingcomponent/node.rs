//! A node with all that the load balancer holds of it.

use super::inbuildlimits::InBuildLimits;
use super::nodedescription::NodeDescription;
use crate::common::nodeimagesinfo::NodeImagesInfo;
use crate::common::stopwatchtime::StopwatchTime;
use vstd::prelude::*;

verus! {

/// A node, its images, its limits and the time since which it is blocked.
pub struct Node {
    pub node_description: NodeDescription,
    pub node_images: NodeImagesInfo,
    pub in_build_limits: InBuildLimits,
    pub pending_block_start_time: StopwatchTime,
}

impl Node {
    /// A node of which every part is the default of its kind.
    pub fn default() -> (node: Node)
        ensures
            node.node_description.node_instance.id.id_value == 0,
            !node.node_description.is_up,
            node.node_images.total_image_size == 0,
            node.in_build_limits.global_in_build_limit == 0,
            node.pending_block_start_time.ticks == 0,
    {
        Node {
            node_description: NodeDescription::default(),
            node_images: NodeImagesInfo::default(),
            in_build_limits: InBuildLimits::default(),
            pending_block_start_time: StopwatchTime::default(),
        }
    }

    pub fn new(
        node_description: NodeDescription,
        node_images: NodeImagesInfo,
        in_build_limits: InBuildLimits,
        pending_block_start_time: StopwatchTime,
    ) -> (node: Node)
        ensures
            node.node_description == node_description,
            node.node_images == node_images,
            node.in_build_limits == in_build_limits,
            node.pending_block_start_time == pending_block_start_time,
    {
        Node { node_description, node_images, in_build_limits, pending_block_start_time }
    }
}

} // verus!
