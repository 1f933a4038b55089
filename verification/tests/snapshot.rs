use plb::application::application::Application;
use plb::application::application_description::ApplicationDescription;
use plb::error::{ActionKind, PlbError};
use plb::failoverunit::failover_unit::{
    FailoverUnit, FailoverUnitDescription, Replica, ReplicaRole,
};
use plb::load::load_or_move_cost::{LoadOrMoveCost, LoadOrMoveCostDescription};
use plb::node::node::Node;
use plb::node::node_description::NodeDescription;
use plb::node::node_id::NodeId;
use plb::node::node_instance::NodeInstance;
use plb::policy::{GreatestNodeId, PlacementPolicy};
use plb::queue::UpdateQueue;
use plb::scheduler::Phase;
use plb::searcher::{Action, Searcher};
use plb::service::service::Service;
use plb::service::service_description::ServiceDescription;
use plb::servicetype::service_type::ServiceType;
use plb::servicetype::service_type_description::ServiceTypeDescription;
use plb::snapshot::ClusterSnapshot;
use plb::solver::{add_replica, Solver};
use std::collections::{HashMap, HashSet, VecDeque};

fn node(id: u128, instance_id: u64) -> Node {
    Node {
        node_description: NodeDescription::new(
            NodeInstance::new(NodeId::new(id), instance_id),
            true,
            HashMap::new(),
            HashMap::new(),
        ),
    }
}

fn unit(id: u128, replica_diff: i32) -> FailoverUnit {
    let mut d = FailoverUnitDescription::default();
    d.id = id;
    d.replica_diff = replica_diff;
    FailoverUnit {
        failover_unit_description: d,
    }
}

fn service(name: &str, app: &str) -> Service {
    let mut d = ServiceDescription::default();
    d.service_name = String::from(name);
    d.application_name = String::from(app);
    Service {
        service_description: d,
    }
}

fn app(name: &str) -> Application {
    Application::new(ApplicationDescription::new(
        String::from(name),
        HashMap::new(),
        1,
        2,
        3,
    ))
}

#[test]
fn a_new_snapshot_is_empty() {
    let snapshot = ClusterSnapshot::new();
    assert_eq!(0, snapshot.node_count());
    assert_eq!(0, snapshot.failover_unit_count());
    assert!(snapshot.node(NodeId::new(0)).is_none());
    assert!(snapshot.application("a").is_none());
    let snapshot = ClusterSnapshot::default();
    assert_eq!(0, snapshot.node_count());
}

#[test]
fn a_queue_keeps_each_kind_in_order_and_drains_at_once() {
    let mut queue = UpdateQueue::new();
    assert!(queue.is_empty());
    queue.push_node(node(1, 1));
    queue.push_node(node(1, 2));
    queue.push_failover_unit(unit(7, 1));
    queue.push_load(LoadOrMoveCost {
        load_description: LoadOrMoveCostDescription { fu_id: 7 },
    });
    queue.push_service_type(ServiceType {
        service_type_desc: ServiceTypeDescription::new(String::from("T"), HashSet::new()),
    });
    queue.push_service(service("S", "A"));
    queue.push_application(app("A"));
    assert!(!queue.is_empty());
    let batch = queue.drain();
    assert!(queue.is_empty());
    assert!(!batch.is_empty());

    let mut snapshot = ClusterSnapshot::new();
    snapshot.merge(batch);
    assert_eq!(
        2,
        snapshot
            .node(NodeId::new(1))
            .unwrap()
            .node_description
            .node_instance
            .instance_id
    );
    assert!(snapshot.load(7).is_some());
    assert!(snapshot.service_type("T").is_some());
    assert!(snapshot.application("A").unwrap().owns_service("S"));
    assert!(UpdateQueue::default().is_empty());
}

#[test]
fn updates_are_taken_in_oldest_first() {
    let mut snapshot = ClusterSnapshot::new();
    let mut updates = VecDeque::new();
    updates.push_back(node(3, 1));
    updates.push_back(node(4, 1));
    updates.push_back(node(3, 2));
    snapshot.process_node_updates(&mut updates);
    assert!(updates.is_empty());
    assert_eq!(2, snapshot.node_count());
    assert_eq!(
        2,
        snapshot
            .node(NodeId::new(3))
            .unwrap()
            .node_description
            .node_instance
            .instance_id
    );
    assert_eq!(NodeId::new(4), snapshot.node(NodeId::new(4)).unwrap().node_id());

    let mut units = VecDeque::new();
    units.push_back(unit(1, 5));
    units.push_back(unit(1, -5));
    snapshot.process_failover_unit_updates(&mut units);
    assert_eq!(-5, snapshot.failover_unit(1).unwrap().replia_diff());

    let mut loads = VecDeque::new();
    loads.push_back(LoadOrMoveCost {
        load_description: LoadOrMoveCostDescription { fu_id: 2 },
    });
    loads.push_back(LoadOrMoveCost {
        load_description: LoadOrMoveCostDescription { fu_id: 1 },
    });
    snapshot.process_load_updates(&mut loads);
    assert!(snapshot.load(1).is_some());
    assert!(snapshot.load(2).is_none());

    let mut apps = VecDeque::new();
    apps.push_back(app("A"));
    snapshot.process_app_updates(&mut apps);
    let mut services = VecDeque::new();
    services.push_back(service("S", "A"));
    services.push_back(service("S", "B"));
    snapshot.process_service_updates(&mut services);
    assert_eq!(0, snapshot.application("A").unwrap().service_count());
    assert_eq!("B", snapshot.service("S").unwrap().application_name());
    let mut types = VecDeque::new();
    types.push_back(ServiceType {
        service_type_desc: ServiceTypeDescription::default(),
    });
    snapshot.process_service_type_updates(&mut types);
    assert!(snapshot.service_type("").is_some());
}

fn unit_with_replicas_of(id: u128, partitions: &[u128]) -> FailoverUnit {
    let mut u = unit(id, 0);
    for (n, partition) in partitions.iter().enumerate() {
        u.failover_unit_description.replicas.insert(
            n as u128,
            Replica::new(n as u128, *partition, ReplicaRole::Secondary, NodeId::new(1)),
        );
    }
    u
}

fn put_units(snapshot: &mut ClusterSnapshot, units: Vec<FailoverUnit>) {
    let mut queue: VecDeque<FailoverUnit> = units.into_iter().collect();
    snapshot.process_failover_unit_updates(&mut queue);
    assert!(queue.is_empty());
}

#[test]
fn a_partition_may_refer_to_one_that_comes_later_in_the_batch() {
    let mut snapshot = ClusterSnapshot::new();
    put_units(
        &mut snapshot,
        vec![unit_with_replicas_of(1, &[2]), unit_with_replicas_of(2, &[])],
    );
    assert_eq!(2, snapshot.failover_unit_count());
    let first = snapshot.failover_unit(1).unwrap();
    assert_eq!(2, first.failover_unit_description.replicas[&0].fu_id);
    assert!(snapshot.failover_unit(2).is_some());
}

#[test]
fn partitions_may_refer_to_each_other_and_to_themselves() {
    let mut snapshot = ClusterSnapshot::new();
    put_units(
        &mut snapshot,
        vec![
            unit_with_replicas_of(1, &[2, 1]),
            unit_with_replicas_of(2, &[3]),
            unit_with_replicas_of(3, &[1]),
        ],
    );
    assert_eq!(3, snapshot.failover_unit_count());
}

#[test]
fn a_partition_with_a_replica_of_an_unknown_partition_is_turned_down() {
    let mut snapshot = ClusterSnapshot::new();
    put_units(
        &mut snapshot,
        vec![
            unit_with_replicas_of(1, &[99]),
            unit_with_replicas_of(2, &[]),
            unit_with_replicas_of(3, &[2]),
        ],
    );
    assert!(snapshot.failover_unit(1).is_none());
    assert!(snapshot.failover_unit(2).is_some());
    assert!(snapshot.failover_unit(3).is_some());
    // in a later batch the partition is known, and the same update is taken in
    put_units(
        &mut snapshot,
        vec![unit_with_replicas_of(1, &[99, 3]), unit_with_replicas_of(99, &[])],
    );
    assert_eq!(4, snapshot.failover_unit_count());
}

#[test]
fn what_refers_to_a_partition_that_is_turned_down_goes_too() {
    let mut snapshot = ClusterSnapshot::new();
    put_units(
        &mut snapshot,
        vec![
            unit_with_replicas_of(1, &[2]),
            unit_with_replicas_of(2, &[3]),
            unit_with_replicas_of(3, &[99]),
            unit_with_replicas_of(4, &[4]),
        ],
    );
    assert!(snapshot.failover_unit(1).is_none());
    assert!(snapshot.failover_unit(2).is_none());
    assert!(snapshot.failover_unit(3).is_none());
    assert!(snapshot.failover_unit(4).is_some());
    assert_eq!(1, snapshot.failover_unit_count());
}

#[test]
fn the_last_update_that_is_taken_in_wins() {
    let mut snapshot = ClusterSnapshot::new();
    let mut good = unit_with_replicas_of(5, &[5]);
    good.failover_unit_description.replica_diff = 7;
    put_units(&mut snapshot, vec![good, unit_with_replicas_of(5, &[99])]);
    assert_eq!(7, snapshot.failover_unit(5).unwrap().replia_diff());
    // an update that is turned down leaves what was held
    put_units(&mut snapshot, vec![unit_with_replicas_of(5, &[98])]);
    assert_eq!(7, snapshot.failover_unit(5).unwrap().replia_diff());
    // a partition that is held carries what refers to it, whatever becomes of its update
    put_units(
        &mut snapshot,
        vec![unit_with_replicas_of(6, &[5]), unit_with_replicas_of(5, &[97])],
    );
    assert!(snapshot.failover_unit(6).is_some());
    assert_eq!(7, snapshot.failover_unit(5).unwrap().replia_diff());
}

#[test]
fn load_reports_are_judged_after_the_partitions_of_their_batch() {
    let mut queue = UpdateQueue::new();
    queue.push_load(LoadOrMoveCost {
        load_description: LoadOrMoveCostDescription { fu_id: 1 },
    });
    queue.push_load(LoadOrMoveCost {
        load_description: LoadOrMoveCostDescription { fu_id: 3 },
    });
    queue.push_failover_unit(unit_with_replicas_of(1, &[2]));
    queue.push_failover_unit(unit_with_replicas_of(2, &[]));
    let mut snapshot = ClusterSnapshot::new();
    snapshot.merge(queue.drain());
    assert!(snapshot.load(1).is_some());
    assert!(snapshot.load(3).is_none());
    assert_eq!(2, snapshot.failover_unit_count());
}

#[test]
fn the_search_for_placement_lists_partitions_in_ascending_order() {
    let mut snapshot = ClusterSnapshot::new();
    put_units(
        &mut snapshot,
        vec![
            unit(9, 1),
            unit(3, -2),
            unit(7, 0),
            unit(1, 4),
            unit(5, -1),
            unit(u128::MAX, 1),
        ],
    );
    let searcher = Searcher::new(&snapshot);
    let actions = searcher.generate_actions(Phase::Placement).unwrap();
    assert_eq!(2, actions.len());
    assert!(matches!(&actions[0], Action::NewReplicaPlacement(ids) if *ids == vec![1, 9, u128::MAX]));
    assert!(matches!(&actions[1], Action::Upgrade(ids) if *ids == vec![3, 5]));
    assert_eq!(ActionKind::NewReplicaPlacement, actions[0].kind());
    assert_eq!(ActionKind::Upgrade, actions[1].kind());
}

#[test]
fn a_search_that_finds_nothing_gives_no_action() {
    let mut snapshot = ClusterSnapshot::new();
    put_units(&mut snapshot, vec![unit(1, 0)]);
    let searcher = Searcher::new(&snapshot);
    assert!(searcher.generate_actions(Phase::Placement).unwrap().is_empty());
    put_units(&mut snapshot, vec![unit(1, -1)]);
    let searcher = Searcher::new(&snapshot);
    let actions = searcher.generate_actions(Phase::Placement).unwrap();
    assert_eq!(1, actions.len());
    assert!(matches!(&actions[0], Action::Upgrade(ids) if *ids == vec![1]));
}

#[test]
fn the_other_phases_have_no_search_yet() {
    let snapshot = ClusterSnapshot::new();
    let searcher = Searcher::new(&snapshot);
    assert!(matches!(
        searcher.generate_actions(Phase::LoadBalancing),
        Err(PlbError::PhaseNotImplemented(Phase::LoadBalancing))
    ));
    assert!(matches!(
        searcher.generate_actions(Phase::ConstraintCheck),
        Err(PlbError::PhaseNotImplemented(Phase::ConstraintCheck))
    ));
}

#[test]
fn the_solver_places_on_the_greatest_node() {
    let mut snapshot = ClusterSnapshot::new();
    snapshot.upsert_node(node(0, 0));
    snapshot.upsert_node(node(1, 0));
    snapshot.upsert_node(node(2, 0));
    let solver = Solver::new(&snapshot);
    let solutions = solver
        .generate_solutions(vec![Action::NewReplicaPlacement(vec![1])])
        .unwrap();
    assert_eq!(vec![add_replica(1, NodeId::new(2))], solutions);
    let solutions = solver
        .generate_solutions(vec![
            Action::NewReplicaPlacement(vec![4, 2]),
            Action::NewReplicaPlacement(vec![]),
            Action::NewReplicaPlacement(vec![8]),
        ])
        .unwrap();
    assert_eq!(
        vec![
            add_replica(4, NodeId::new(2)),
            add_replica(2, NodeId::new(2)),
            add_replica(8, NodeId::new(2)),
        ],
        solutions
    );
    assert_eq!(Ok(vec![]), solver.generate_solutions(vec![]));
    let solver = Solver::with_policy(&snapshot, &GreatestNodeId);
    assert_eq!(
        Ok(vec![add_replica(6, NodeId::new(2))]),
        solver.generate_solutions(vec![Action::NewReplicaPlacement(vec![6])])
    );
}

#[test]
fn the_solver_stops_at_the_first_action_it_cannot_resolve() {
    let mut snapshot = ClusterSnapshot::new();
    snapshot.upsert_node(node(1, 0));
    let solver = Solver::new(&snapshot);
    assert_eq!(
        Err(PlbError::ActionNotImplemented(ActionKind::Upgrade)),
        solver.generate_solutions(vec![
            Action::NewReplicaPlacement(vec![1]),
            Action::Upgrade(vec![2]),
            Action::LoadBalancing,
        ])
    );
    assert_eq!(
        Err(PlbError::ActionNotImplemented(ActionKind::LoadBalancing)),
        solver.generate_solutions(vec![Action::LoadBalancing])
    );
    assert_eq!(
        Err(PlbError::ActionNotImplemented(ActionKind::Defragmentation)),
        solver.generate_solutions(vec![Action::Defragmentation, Action::Upgrade(vec![])])
    );
    assert_eq!(
        Err(PlbError::ActionNotImplemented(ActionKind::FixConstraintViolation)),
        solver.generate_solutions(vec![Action::FixConstraintViolation])
    );
}

#[test]
fn the_baseline_policy_chooses_the_greatest_node() {
    let mut snapshot = ClusterSnapshot::new();
    assert_eq!(None, GreatestNodeId.choose_node(&snapshot, 1));
    snapshot.upsert_node(node(10, 0));
    assert_eq!(Some(NodeId::new(10)), GreatestNodeId.choose_node(&snapshot, 1));
    snapshot.upsert_node(node(3, 0));
    snapshot.upsert_node(node(11, 0));
    assert_eq!(Some(NodeId::new(11)), GreatestNodeId.choose_node(&snapshot, 1));
    assert_eq!(Some(NodeId::new(11)), GreatestNodeId.choose_node(&snapshot, 2));
}

#[test]
fn search_and_solve_on_an_empty_snapshot_find_nothing() {
    let snapshot = ClusterSnapshot::new();
    let searcher = Searcher::new(&snapshot);
    let actions = searcher.generate_actions(Phase::Placement).unwrap();
    assert!(actions.is_empty());
    let solver = Solver::new(&snapshot);
    assert_eq!(Ok(vec![]), solver.generate_solutions(actions));
    // partitions that need a replica are passed over where there is no node
    assert_eq!(
        Ok(vec![]),
        solver.generate_solutions(vec![Action::NewReplicaPlacement(vec![1, 2, 3])])
    );
}
