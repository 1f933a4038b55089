//! What the engine reports when it cannot do what was asked.

use crate::scheduler::Phase;
use vstd::prelude::*;

verus! {

/// The kinds of action that a search can ask for.
#[derive(Debug, Clone, Copy, PartialEq, Eq, Structural)]
pub enum ActionKind {
    NewReplicaPlacement,
    Upgrade,
    LoadBalancing,
    Defragmentation,
    FixConstraintViolation,
}

/// The kinds of entity that can be taken out of the cluster.
#[derive(Debug, Clone, Copy, PartialEq, Eq, Structural)]
pub enum EntityKind {
    Node,
    Application,
    ServiceType,
    Service,
    FailoverUnit,
}

/// A request that the engine does not serve yet. Each of these is told
/// apart from "nothing to do", which is an empty list of proposals.
#[derive(Debug, Clone, Copy, PartialEq, Eq, Structural)]
pub enum PlbError {
    /// No search is implemented for the phase.
    PhaseNotImplemented(Phase),
    /// No way to resolve an action of this kind is implemented.
    ActionNotImplemented(ActionKind),
    /// Entities of this kind cannot be deleted yet.
    DeleteNotSupported(EntityKind),
}

} // verus!
