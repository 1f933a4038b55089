use plb::node::node_description::NodeDescription;
use plb::node::node_id::NodeId;
use plb::policy::PlacementPolicy;
use plb::failoverunit::failover_unit::FailoverUnitDescription;
use plb::scheduler::{Phase, MIN_PLACEMENT_INTERVAL};
use plb::snapshot::ClusterSnapshot;
use plb::solver::{add_replica, Solver};
use plb::state::ClusterState;
use plb::searcher::Action;
use plb::timestamp::Timestamp;
use plb::PlacementAndLoadBalancing;

/// Places every replica on one node, where the snapshot holds it.
struct Pinned(NodeId);

impl PlacementPolicy for Pinned {
    // what the policy means in proofs; nothing calls it when the program runs
    fn target(&self, _cluster: ClusterState, _partition: u128) -> Option<u128> {
        unreachable!()
    }

    fn choose_node(&self, snapshot: &ClusterSnapshot, _partition: u128) -> Option<NodeId> {
        snapshot.node(self.0).map(|node| node.node_id())
    }
}

fn node_desc(id: u128) -> NodeDescription {
    let mut d = NodeDescription::default();
    d.node_instance.id = NodeId::new(id);
    d
}

#[test]
fn the_policy_of_a_refresh_can_be_exchanged() {
    let start = Timestamp::from_unix_nanos(0);
    let mut plb = PlacementAndLoadBalancing::with_start_time(
        vec![node_desc(1), node_desc(2), node_desc(3)],
        vec![],
        vec![],
        vec![],
        vec![],
        vec![],
        start,
    );
    let mut fu = FailoverUnitDescription::default();
    fu.id = 40;
    fu.replica_diff = 1;
    plb.update_failover_unit(fu);
    let now = Timestamp::from_unix_nanos(MIN_PLACEMENT_INTERVAL);
    assert_eq!(
        Ok(vec![add_replica(40, NodeId::new(1))]),
        plb.refresh_with(now, &Pinned(NodeId::new(1)))
    );
    // a node that the snapshot does not hold takes no replica
    plb.set_last_phase_time(start, Phase::Placement);
    assert_eq!(Ok(vec![]), plb.refresh_with(now, &Pinned(NodeId::new(9))));
}

#[test]
fn the_policy_of_a_solver_can_be_exchanged() {
    let plb = PlacementAndLoadBalancing::with_start_time(
        vec![node_desc(1), node_desc(2)],
        vec![],
        vec![],
        vec![],
        vec![],
        vec![],
        Timestamp::unix_epoch(),
    );
    let policy = Pinned(NodeId::new(1));
    let solver = Solver::with_policy(plb.snapshot(), &policy);
    assert_eq!(
        Ok(vec![add_replica(5, NodeId::new(1)), add_replica(6, NodeId::new(1))]),
        solver.generate_solutions(vec![Action::NewReplicaPlacement(vec![5, 6])])
    );
}
