//! How far the deactivation of a node has come.

use vstd::prelude::*;

verus! {

/// A step in the deactivation of a node, or in its return.
#[derive(Debug, Clone, Copy, PartialEq, Eq, Structural)]
pub enum NodeDeactivationStatus {
    DeactivationSafetyCheckInProgress,
    DeactivationSafetyCheckComplete,
    DeactivationComplete,
    ActivationInProgress,
    /// The node is neither being deactivated nor being activated.
    NoStatus,
}

impl NodeDeactivationStatus {
    /// The number that stands for the status where statuses are exchanged
    /// as numbers.
    pub open spec fn spec_code(self) -> int {
        match self {
            NodeDeactivationStatus::DeactivationSafetyCheckInProgress => 0,
            NodeDeactivationStatus::DeactivationSafetyCheckComplete => 1,
            NodeDeactivationStatus::DeactivationComplete => 2,
            NodeDeactivationStatus::ActivationInProgress => 3,
            NodeDeactivationStatus::NoStatus => 4,
        }
    }

    pub fn code(&self) -> (c: u32)
        ensures
            c == self.spec_code(),
    {
        match self {
            NodeDeactivationStatus::DeactivationSafetyCheckInProgress => 0,
            NodeDeactivationStatus::DeactivationSafetyCheckComplete => 1,
            NodeDeactivationStatus::DeactivationComplete => 2,
            NodeDeactivationStatus::ActivationInProgress => 3,
            NodeDeactivationStatus::NoStatus => 4,
        }
    }
}

} // verus!
