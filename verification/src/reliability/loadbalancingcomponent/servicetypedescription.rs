//! A service type as the reliability subsystem describes it.

use crate::federation::nodeid::NodeId;
use std::collections::HashSet;
use vstd::prelude::*;

verus! {

/// A service type and the nodes of the ring that must not host it.
pub struct ServiceTypeDescription {
    pub name: String,
    pub block_list: HashSet<NodeId>,
}

} // verus!
