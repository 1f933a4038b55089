//! Why a node is being taken out of service.

use vstd::prelude::*;

verus! {

/// What is meant to happen to a node that is deactivated.
#[derive(Debug, Clone, Copy, PartialEq, Eq, Structural)]
pub enum NodeDeactivationIntent {
    /// The node is not to be deactivated.
    NoIntent,
    Pause,
    Restart,
    RemoveData,
    RemoveNode,
}

} // verus!
