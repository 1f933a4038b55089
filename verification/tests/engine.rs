use plb::application::application_description::ApplicationDescription;
use plb::PlacementAndLoadBalancing;
use plb::error::{ActionKind, EntityKind, PlbError};
use plb::failoverunit::failover_unit::{FailoverUnitDescription, Replica, ReplicaRole};
use plb::load::load_or_move_cost::LoadOrMoveCostDescription;
use plb::node::node_description::NodeDescription;
use plb::node::node_id::NodeId;
use plb::scheduler::{Phase, MIN_PLACEMENT_INTERVAL};
use plb::service::service_description::ServiceDescription;
use plb::servicetype::service_type_description::ServiceTypeDescription;
use plb::solver::Solution;
use plb::timestamp::Timestamp;
use std::collections::HashMap;
use time::{Duration, OffsetDateTime};
use uuid::Uuid;

fn instant(t: OffsetDateTime) -> Timestamp {
    Timestamp::from_unix_nanos(t.unix_timestamp_nanos())
}

fn create_empty_plb() -> PlacementAndLoadBalancing {
    PlacementAndLoadBalancing::new(vec![], vec![], vec![], vec![], vec![], vec![])
}

fn create_node_desc(node_id: u128) -> NodeDescription {
    let mut node_desc = NodeDescription::default();
    node_desc.node_instance.id = NodeId { id_value: node_id };
    node_desc
}

fn create_service_type_desc(service_type_name: &str) -> ServiceTypeDescription {
    let mut service_type_desc = ServiceTypeDescription::default();
    service_type_desc.name = String::from(service_type_name);
    service_type_desc
}

fn create_service_desc(service_type_name: &str, service_name: &str) -> ServiceDescription {
    let mut service_desc = ServiceDescription::default();
    service_desc.service_type_name = String::from(service_type_name);
    service_desc.service_name = String::from(service_name);
    service_desc
}

fn create_fu_desc(
    fu_id: Uuid,
    service_name: &str,
    replicas: HashMap<u128, Replica>,
    replica_diff: i32,
) -> FailoverUnitDescription {
    let mut fu_desc = FailoverUnitDescription::default();
    fu_desc.id = fu_id.as_u128();
    fu_desc.service_name = String::from(service_name);
    fu_desc.replicas = replicas;
    fu_desc.replica_diff = replica_diff;
    fu_desc
}

#[test]
fn test_dummy_placement_basic() {
    // Get a bunch of failover units with replica diff = 1
    // put them into PLB and expect the PLB to place them on the node with greatest node id
    let mut plb = create_empty_plb();

    plb.update_node(create_node_desc(0));
    plb.update_node(create_node_desc(1));
    plb.update_node(create_node_desc(2));

    plb.update_service_type(create_service_type_desc("Worker.ISO"));
    plb.update_service(create_service_desc("Worker.ISO", "LogicalServier"));
    plb.update_failover_unit(create_fu_desc(
        Uuid::from_u128(1),
        "LogicalServer",
        HashMap::new(),
        1,
    ));

    let initial_time = OffsetDateTime::now_utc();
    plb.set_last_phase_time(instant(initial_time), Phase::Placement);

    let solutions = plb
        .refresh(instant(
            initial_time + Duration::nanoseconds(MIN_PLACEMENT_INTERVAL as i64),
        ))
        .unwrap();

    assert_eq!(1, solutions.len());
    assert_eq!(
        Solution::AddReplica(format!(
            "Partition {:}: AddReplica on Node {:?}",
            Uuid::from_u128(1),
            NodeId::new(2)
        )),
        solutions[0]
    );
}

fn create_app_desc(app_name: &str) -> ApplicationDescription {
    ApplicationDescription::new(String::from(app_name), HashMap::new(), 0, 0, 0)
}

fn start() -> Timestamp {
    Timestamp::from_unix_nanos(1_700_000_000_000_000_000)
}

fn after(nanos: i128) -> Timestamp {
    start().checked_add_nanos(nanos).unwrap()
}

fn add_replica(partition: u128, node: u128) -> Solution {
    Solution::AddReplica(format!(
        "Partition {:}: AddReplica on Node {:?}",
        Uuid::from_u128(partition),
        NodeId::new(node)
    ))
}

fn empty_plb_at_start() -> PlacementAndLoadBalancing {
    PlacementAndLoadBalancing::with_start_time(
        vec![],
        vec![],
        vec![],
        vec![],
        vec![],
        vec![],
        start(),
    )
}

#[test]
fn placement_on_an_empty_cluster_proposes_nothing() {
    let mut plb = empty_plb_at_start();
    let solutions = plb.refresh(after(MIN_PLACEMENT_INTERVAL));
    assert_eq!(Ok(vec![]), solutions);
}

#[test]
fn refresh_before_any_phase_is_due_proposes_nothing() {
    let mut plb = empty_plb_at_start();
    plb.update_node(create_node_desc(7));
    plb.update_failover_unit(create_fu_desc(Uuid::from_u128(9), "s", HashMap::new(), 1));
    assert_eq!(Ok(vec![]), plb.refresh(after(MIN_PLACEMENT_INTERVAL - 1)));
    // the updates were merged all the same
    assert!(plb.has_no_pending_update());
    assert_eq!(1, plb.snapshot().node_count());
    assert_eq!(1, plb.snapshot().failover_unit_count());
    // and the phase is still due at its time
    assert_eq!(
        Ok(vec![add_replica(9, 7)]),
        plb.refresh(after(MIN_PLACEMENT_INTERVAL))
    );
}

#[test]
fn a_partition_is_passed_over_where_there_is_no_node() {
    let mut plb = empty_plb_at_start();
    plb.update_failover_unit(create_fu_desc(Uuid::from_u128(1), "s", HashMap::new(), 1));
    assert_eq!(Ok(vec![]), plb.refresh(after(MIN_PLACEMENT_INTERVAL)));
}

#[test]
fn a_satisfied_partition_needs_nothing() {
    let mut plb = empty_plb_at_start();
    plb.update_node(create_node_desc(3));
    plb.update_failover_unit(create_fu_desc(Uuid::from_u128(1), "s", HashMap::new(), 0));
    assert_eq!(Ok(vec![]), plb.refresh(after(MIN_PLACEMENT_INTERVAL)));
}

#[test]
fn partitions_are_placed_in_ascending_order_on_the_greatest_node() {
    let mut plb = empty_plb_at_start();
    plb.update_node(create_node_desc(5));
    plb.update_node(create_node_desc(u128::MAX));
    plb.update_node(create_node_desc(0));
    plb.update_failover_unit(create_fu_desc(Uuid::from_u128(30), "s", HashMap::new(), 2));
    plb.update_failover_unit(create_fu_desc(Uuid::from_u128(10), "s", HashMap::new(), 1));
    plb.update_failover_unit(create_fu_desc(Uuid::from_u128(20), "s", HashMap::new(), 0));
    plb.update_failover_unit(create_fu_desc(
        Uuid::from_u128(0xa1a2a3a4b1b2c1c2d1d2d3d4d5d6d7d8),
        "s",
        HashMap::new(),
        7,
    ));
    let solutions = plb.refresh(after(MIN_PLACEMENT_INTERVAL)).unwrap();
    assert_eq!(
        vec![
            add_replica(10, u128::MAX),
            add_replica(30, u128::MAX),
            add_replica(0xa1a2a3a4b1b2c1c2d1d2d3d4d5d6d7d8, u128::MAX),
        ],
        solutions
    );
    assert_eq!(
        "Partition a1a2a3a4-b1b2-c1c2-d1d2-d3d4d5d6d7d8: AddReplica on Node NodeId { id_value: 340282366920938463463374607431768211455 }",
        solutions[2].text()
    );
}

#[test]
fn an_over_replicated_partition_is_reported_as_not_implemented() {
    let mut plb = empty_plb_at_start();
    plb.update_node(create_node_desc(1));
    plb.update_failover_unit(create_fu_desc(Uuid::from_u128(1), "s", HashMap::new(), 1));
    plb.update_failover_unit(create_fu_desc(Uuid::from_u128(2), "s", HashMap::new(), -1));
    assert_eq!(
        Err(PlbError::ActionNotImplemented(ActionKind::Upgrade)),
        plb.refresh(after(MIN_PLACEMENT_INTERVAL))
    );
}

#[test]
fn a_phase_without_a_search_is_reported_as_not_implemented() {
    let mut plb = empty_plb_at_start();
    // five seconds on, placement and the constraint check are due
    assert_eq!(
        Err(PlbError::PhaseNotImplemented(Phase::ConstraintCheck)),
        plb.refresh(after(5_000_000_000))
    );
    // both were recorded as run all the same
    assert_eq!(after(5_000_000_000), plb.last_phase_time(Phase::Placement));
    assert_eq!(after(5_000_000_000), plb.last_phase_time(Phase::ConstraintCheck));
    assert_eq!(start(), plb.last_phase_time(Phase::LoadBalancing));
    // ten seconds on, load balancing comes first of those that fail
    assert_eq!(
        Err(PlbError::PhaseNotImplemented(Phase::LoadBalancing)),
        plb.refresh(after(10_000_000_000))
    );
}

#[test]
fn deletes_are_reported_as_not_supported() {
    let mut plb = empty_plb_at_start();
    plb.update_node(create_node_desc(1));
    assert_eq!(
        Err(PlbError::DeleteNotSupported(EntityKind::Node)),
        plb.delete_node(NodeId::new(1))
    );
    assert_eq!(
        Err(PlbError::DeleteNotSupported(EntityKind::Application)),
        plb.delete_application()
    );
    assert_eq!(
        Err(PlbError::DeleteNotSupported(EntityKind::ServiceType)),
        plb.delete_service_type()
    );
    assert_eq!(
        Err(PlbError::DeleteNotSupported(EntityKind::Service)),
        plb.delete_service()
    );
    assert_eq!(
        Err(PlbError::DeleteNotSupported(EntityKind::FailoverUnit)),
        plb.delete_failover_unit()
    );
    // the update that waited still waits
    assert!(!plb.has_no_pending_update());
}

#[test]
fn the_later_update_of_a_key_wins() {
    let mut plb = empty_plb_at_start();
    let mut first = create_node_desc(4);
    first.is_up = true;
    first.node_instance.instance_id = 1;
    let mut second = create_node_desc(4);
    second.is_up = false;
    second.node_instance.instance_id = 2;
    plb.update_node(first);
    plb.update_node(create_node_desc(5));
    plb.update_node(second);
    plb.update_failover_unit(create_fu_desc(Uuid::from_u128(1), "a", HashMap::new(), 1));
    plb.update_failover_unit(create_fu_desc(Uuid::from_u128(1), "b", HashMap::new(), 0));
    plb.refresh(start()).unwrap();
    let snapshot = plb.snapshot();
    assert_eq!(2, snapshot.node_count());
    let node = snapshot.node(NodeId::new(4)).unwrap();
    assert!(!node.node_description.is_up);
    assert_eq!(2, node.node_description.node_instance.instance_id);
    let unit = snapshot.failover_unit(1).unwrap();
    assert_eq!("b", unit.failover_unit_description.service_name);
    assert_eq!(0, unit.replia_diff());
}

#[test]
fn merging_an_update_twice_is_merging_it_once() {
    let mut plb = empty_plb_at_start();
    plb.update_node(create_node_desc(1));
    plb.update_service(create_service_desc("T", "S"));
    plb.update_failover_unit(create_fu_desc(Uuid::from_u128(2), "S", HashMap::new(), 1));
    plb.refresh(start()).unwrap();
    plb.update_node(create_node_desc(1));
    plb.update_service(create_service_desc("T", "S"));
    plb.update_failover_unit(create_fu_desc(Uuid::from_u128(2), "S", HashMap::new(), 1));
    plb.refresh(start()).unwrap();
    let snapshot = plb.snapshot();
    assert_eq!(1, snapshot.node_count());
    assert_eq!(1, snapshot.failover_unit_count());
    assert_eq!(1, snapshot.failover_unit(2).unwrap().replia_diff());
    assert_eq!(
        "T",
        snapshot.service("S").unwrap().service_description.service_type_name
    );
    assert_eq!(
        Ok(vec![add_replica(2, 1)]),
        plb.refresh(after(MIN_PLACEMENT_INTERVAL))
    );
}

#[test]
fn a_replica_of_an_unknown_partition_keeps_its_update_out() {
    let mut plb = empty_plb_at_start();
    let mut dangling = HashMap::new();
    dangling.insert(
        1,
        Replica::new(1, 99, ReplicaRole::Primary, NodeId::new(0)),
    );
    plb.update_failover_unit(create_fu_desc(Uuid::from_u128(5), "s", dangling.clone(), 1));
    plb.refresh(start()).unwrap();
    assert!(plb.snapshot().failover_unit(5).is_none());
    // once partition 99 is known the same update is taken in
    plb.update_failover_unit(create_fu_desc(Uuid::from_u128(99), "s", HashMap::new(), 0));
    plb.update_failover_unit(create_fu_desc(Uuid::from_u128(5), "s", dangling, 1));
    plb.refresh(start()).unwrap();
    assert!(plb.snapshot().failover_unit(99).is_some());
    let unit = plb.snapshot().failover_unit(5).unwrap();
    assert_eq!(99, unit.failover_unit_description.replicas[&1].fu_id);
}

#[test]
fn a_replica_may_belong_to_the_partition_that_brings_it() {
    let mut plb = empty_plb_at_start();
    let mut own = HashMap::new();
    own.insert(
        1,
        Replica::new(1, 5, ReplicaRole::Secondary, NodeId::new(0)),
    );
    plb.update_failover_unit(create_fu_desc(Uuid::from_u128(5), "s", own, 1));
    plb.refresh(start()).unwrap();
    assert!(plb.snapshot().failover_unit(5).is_some());
}

#[test]
fn a_load_report_on_an_unknown_partition_is_kept_out() {
    let mut plb = empty_plb_at_start();
    plb.update_load_or_move_cost(LoadOrMoveCostDescription { fu_id: 8 });
    plb.refresh(start()).unwrap();
    assert!(plb.snapshot().load(8).is_none());
    // a report that comes with its partition is taken in: partitions are merged first
    plb.update_load_or_move_cost(LoadOrMoveCostDescription { fu_id: 8 });
    plb.update_failover_unit(create_fu_desc(Uuid::from_u128(8), "s", HashMap::new(), 0));
    plb.refresh(start()).unwrap();
    assert_eq!(8, plb.snapshot().load(8).unwrap().id());
}

#[test]
fn an_application_owns_the_services_that_name_it() {
    let mut plb = empty_plb_at_start();
    let mut early = create_service_desc("T", "early");
    early.application_name = String::from("shop");
    plb.update_service(early);
    plb.refresh(start()).unwrap();
    assert!(plb.snapshot().application("shop").is_none());

    plb.update_application(create_app_desc("shop"));
    plb.update_application(create_app_desc("bank"));
    let mut cart = create_service_desc("T", "cart");
    cart.application_name = String::from("shop");
    plb.update_service(cart);
    plb.refresh(start()).unwrap();
    {
        let shop = plb.snapshot().application("shop").unwrap();
        assert_eq!("shop", shop.app_name());
        assert!(shop.owns_service("early"));
        assert!(shop.owns_service("cart"));
        assert_eq!(2, shop.service_count());
        assert_eq!(0, plb.snapshot().application("bank").unwrap().service_count());
    }

    // the service moves to the other application
    let mut moved = create_service_desc("T", "cart");
    moved.application_name = String::from("bank");
    plb.update_service(moved);
    // and the application is described anew, which keeps what it owns
    plb.update_application(create_app_desc("shop"));
    plb.refresh(start()).unwrap();
    let shop = plb.snapshot().application("shop").unwrap();
    assert!(shop.owns_service("early"));
    assert!(!shop.owns_service("cart"));
    assert_eq!(1, shop.service_count());
    let bank = plb.snapshot().application("bank").unwrap();
    assert!(bank.owns_service("cart"));
    assert_eq!(1, bank.service_count());
}

#[test]
fn the_engine_starts_from_the_descriptions_it_is_given() {
    let plb = PlacementAndLoadBalancing::with_start_time(
        vec![create_node_desc(1), create_node_desc(2), create_node_desc(1)],
        vec![create_app_desc("shop")],
        vec![create_service_type_desc("T")],
        vec![create_service_desc("T", "S")],
        vec![create_fu_desc(Uuid::from_u128(3), "S", HashMap::new(), 1)],
        vec![
            LoadOrMoveCostDescription { fu_id: 3 },
            LoadOrMoveCostDescription { fu_id: 4 },
        ],
        start(),
    );
    assert!(plb.has_no_pending_update());
    let snapshot = plb.snapshot();
    assert_eq!(2, snapshot.node_count());
    assert!(snapshot.application("shop").is_some());
    assert_eq!("T", snapshot.service_type("T").unwrap().service_type_name());
    assert_eq!("S", snapshot.service("S").unwrap().servcie_name());
    assert_eq!(3, snapshot.failover_unit(3).unwrap().id());
    assert!(snapshot.load(3).is_some());
    assert!(snapshot.load(4).is_none());
    assert_eq!(start(), plb.last_phase_time(Phase::Placement));
    assert_eq!(start(), plb.last_phase_time(Phase::LoadBalancing));
    assert_eq!(start(), plb.last_phase_time(Phase::ConstraintCheck));
}

#[test]
fn a_new_engine_counts_every_phase_from_one_instant() {
    let plb = create_empty_plb();
    let t = plb.last_phase_time(Phase::Placement);
    assert_eq!(t, plb.last_phase_time(Phase::LoadBalancing));
    assert_eq!(t, plb.last_phase_time(Phase::ConstraintCheck));
    assert!(t.unix_nanos() > 1_500_000_000_000_000_000);
}

#[test]
fn the_default_engine_counts_from_the_epoch() {
    let mut plb = PlacementAndLoadBalancing::default();
    assert_eq!(Timestamp::unix_epoch(), plb.last_phase_time(Phase::Placement));
    assert_eq!(0, plb.snapshot().node_count());
    assert_eq!(
        Ok(vec![]),
        plb.refresh(Timestamp::from_unix_nanos(MIN_PLACEMENT_INTERVAL))
    );
}

#[test]
fn promotion_prefers_by_node_identity() {
    let plb = create_empty_plb();
    assert_eq!(
        -1,
        plb.compare_node_for_promotion("s", 1, NodeId::new(1), NodeId::new(2))
    );
    assert_eq!(
        0,
        plb.compare_node_for_promotion("s", 1, NodeId::new(2), NodeId::new(2))
    );
    assert_eq!(
        1,
        plb.compare_node_for_promotion("s", 1, NodeId::new(u128::MAX), NodeId::new(0))
    );
}

#[test]
fn a_partition_may_refer_to_one_that_is_reported_after_it() {
    let mut replica_of_two = HashMap::new();
    replica_of_two.insert(1, Replica::new(1, 2, ReplicaRole::Primary, NodeId::new(0)));
    // at construction
    let plb = PlacementAndLoadBalancing::with_start_time(
        vec![],
        vec![],
        vec![],
        vec![],
        vec![
            create_fu_desc(Uuid::from_u128(1), "s", replica_of_two.clone(), 0),
            create_fu_desc(Uuid::from_u128(2), "s", HashMap::new(), 0),
        ],
        vec![],
        start(),
    );
    assert_eq!(2, plb.snapshot().failover_unit_count());
    assert!(plb.snapshot().failover_unit(1).is_some());
    // and in a refresh
    let mut plb = empty_plb_at_start();
    plb.update_failover_unit(create_fu_desc(Uuid::from_u128(1), "s", replica_of_two, 0));
    plb.update_failover_unit(create_fu_desc(Uuid::from_u128(2), "s", HashMap::new(), 0));
    plb.refresh(start()).unwrap();
    assert_eq!(2, plb.snapshot().failover_unit_count());
    assert_eq!(
        2,
        plb.snapshot()
            .failover_unit(1)
            .unwrap()
            .failover_unit_description
            .replicas[&1]
            .fu_id
    );
}

#[test]
fn every_key_of_the_descriptions_is_held_with_its_last_description() {
    let mut of_three = HashMap::new();
    of_three.insert(1, Replica::new(1, 3, ReplicaRole::Secondary, NodeId::new(1)));
    let mut first = create_node_desc(1);
    first.node_instance.instance_id = 1;
    let mut last = create_node_desc(1);
    last.node_instance.instance_id = 2;
    let plb = PlacementAndLoadBalancing::with_start_time(
        vec![first, create_node_desc(2), last],
        vec![create_app_desc("a"), create_app_desc("b")],
        vec![create_service_type_desc("T"), create_service_type_desc("U")],
        vec![create_service_desc("T", "s"), create_service_desc("U", "s")],
        vec![
            create_fu_desc(Uuid::from_u128(1), "s", of_three, 1),
            create_fu_desc(Uuid::from_u128(3), "s", HashMap::new(), 1),
            create_fu_desc(Uuid::from_u128(3), "s", HashMap::new(), 2),
        ],
        vec![
            LoadOrMoveCostDescription { fu_id: 1 },
            LoadOrMoveCostDescription { fu_id: 3 },
        ],
        start(),
    );
    let snapshot = plb.snapshot();
    assert_eq!(2, snapshot.node_count());
    assert_eq!(
        2,
        snapshot
            .node(NodeId::new(1))
            .unwrap()
            .node_description
            .node_instance
            .instance_id
    );
    assert!(snapshot.application("a").is_some());
    assert!(snapshot.application("b").is_some());
    assert!(snapshot.service_type("T").is_some());
    assert!(snapshot.service_type("U").is_some());
    assert_eq!(
        "U",
        snapshot.service("s").unwrap().service_description.service_type_name
    );
    assert_eq!(2, snapshot.failover_unit_count());
    assert_eq!(1, snapshot.failover_unit(1).unwrap().replia_diff());
    assert_eq!(2, snapshot.failover_unit(3).unwrap().replia_diff());
    assert!(snapshot.load(1).is_some());
    assert!(snapshot.load(3).is_some());
    assert!(plb.has_no_pending_update());
}
