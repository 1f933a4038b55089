//! Failover units: the partitions of a service, each a unit of replication.

use crate::node::node_id::NodeId;
use std::collections::HashMap;
use vstd::prelude::*;

verus! {

/// What a replica does for its partition.
#[derive(Debug, Clone, Copy, PartialEq, Eq, Structural)]
pub enum ReplicaRole {
    /// The replica has no role.
    NoRole,
    Primary,
    Secondary,
    StandBy,
    Dropped,
    Auxiliary,
    StandByAuxiliary,
}

impl ReplicaRole {
    /// The number that stands for the role where roles are exchanged as
    /// numbers.
    pub open spec fn spec_code(self) -> int {
        match self {
            ReplicaRole::NoRole => 1024,
            ReplicaRole::Primary => 1025,
            ReplicaRole::Secondary => 1026,
            ReplicaRole::StandBy => 1027,
            ReplicaRole::Dropped => 1028,
            ReplicaRole::Auxiliary => 1029,
            ReplicaRole::StandByAuxiliary => 1030,
        }
    }

    pub fn code(&self) -> (c: u32)
        ensures
            c == self.spec_code(),
    {
        match self {
            ReplicaRole::NoRole => 1024,
            ReplicaRole::Primary => 1025,
            ReplicaRole::Secondary => 1026,
            ReplicaRole::StandBy => 1027,
            ReplicaRole::Dropped => 1028,
            ReplicaRole::Auxiliary => 1029,
            ReplicaRole::StandByAuxiliary => 1030,
        }
    }
}

/// One copy of a partition, hosted on a node.
#[derive(Debug, Clone, Copy)]
pub struct Replica {
    pub replica_id: u128,
    /// The partition that the replica belongs to.
    pub fu_id: u128,
    pub role: ReplicaRole,
    /// The node that hosts the replica.
    pub location: NodeId,
}

impl Replica {
    pub fn new(replica_id: u128, fu_id: u128, role: ReplicaRole, location: NodeId) -> (r: Replica)
        ensures
            r.replica_id == replica_id,
            r.fu_id == fu_id,
            r.role == role,
            r.location == location,
    {
        Replica { replica_id, fu_id, role, location }
    }
}

/// The state of a partition as an update reports it. Partition identifiers
/// are 128-bit values; the snapshot keys partitions by them and walks them in
/// ascending order.
pub struct FailoverUnitDescription {
    pub id: u128,
    pub service_name: String,
    /// The replicas of the partition by their identifier.
    pub replicas: HashMap<u128, Replica>,
    /// Replicas wanted less replicas present. Above zero the partition needs
    /// more replicas, below zero it has too many. Whoever sends the update
    /// keeps the number right: the engine does not count the replicas.
    pub replica_diff: i32,
}

impl Default for FailoverUnitDescription {
    /// The partition with identifier zero, no service, no replicas and
    /// nothing wanted.
    fn default() -> (d: FailoverUnitDescription)
        ensures
            d.id == 0,
            d.service_name@ == Seq::<char>::empty(),
            d.replicas@ == Map::<u128, Replica>::empty(),
            d.replica_diff == 0,
    {
        FailoverUnitDescription {
            id: 0,
            service_name: String::new(),
            replicas: HashMap::new(),
            replica_diff: 0,
        }
    }
}

/// A partition as the snapshot holds it.
pub struct FailoverUnit {
    pub failover_unit_description: FailoverUnitDescription,
}

impl FailoverUnit {
    /// The replicas of the partition by their identifier.
    pub open spec fn replicas(&self) -> Map<u128, Replica> {
        self.failover_unit_description.replicas@
    }

    pub fn id(&self) -> (id: u128)
        ensures
            id == self.failover_unit_description.id,
    {
        self.failover_unit_description.id
    }

    pub fn replia_diff(&self) -> (diff: i32)
        ensures
            diff == self.failover_unit_description.replica_diff,
    {
        self.failover_unit_description.replica_diff
    }
}

} // verus!
