use plb::application::application::Application;
use plb::application::application_description::{
    ApplicationCapacitiesDescription, ApplicationDescription,
};
use plb::common::nodeimagesinfo::NodeImagesInfo;
use plb::common::stopwatchtime::StopwatchTime;
use plb::failoverunit::failover_unit::{FailoverUnitDescription, Replica, ReplicaRole};
use plb::node::node_description::NodeDescription;
use plb::node::node_id::NodeId;
use plb::node::node_instance::NodeInstance;
use plb::reliability::loadbalancingcomponent::inbuildlimits::InBuildLimits;
use plb::reliability::loadbalancingcomponent::node::Node;
use plb::reliability::loadbalancingcomponent::nodedescription::NodeDescription as FullNodeDescription;
use plb::reliability::nodedeactivationintent::NodeDeactivationIntent;
use plb::reliability::nodedeactivationstatus::NodeDeactivationStatus;
use plb::service::service_description::ServiceDescription;
use plb::servicemodel::applicationidentifier::ApplicationIdentifier;
use plb::servicetype::service_type::ServiceType;
use plb::servicetype::service_type_description::ServiceTypeDescription;
use std::collections::{HashMap, HashSet};

#[test]
fn a_default_node_is_up_and_has_no_capacity() {
    let d = NodeDescription::default();
    assert_eq!(NodeId::new(0), d.node_instance.id);
    assert_eq!(0, d.node_instance.instance_id);
    assert!(d.is_up);
    assert!(d.capacities.is_empty());
    assert!(d.capacity_ratios.is_empty());
}

#[test]
fn a_node_description_keeps_what_it_is_given() {
    let mut capacities = HashMap::new();
    capacities.insert(String::from("cpu"), 8);
    let mut ratios = HashMap::new();
    ratios.insert(String::from("cpu"), 2);
    let d = NodeDescription::new(
        NodeInstance::new(NodeId::new(12), 4),
        false,
        ratios,
        capacities,
    );
    assert_eq!(NodeId::new(12), d.node_instance.id);
    assert_eq!(4, d.node_instance.instance_id);
    assert!(!d.is_up);
    assert_eq!(Some(&8), d.capacities.get("cpu"));
    assert_eq!(Some(&2), d.capacity_ratios.get("cpu"));
}

#[test]
fn replica_roles_have_their_numbers() {
    assert_eq!(1024, ReplicaRole::NoRole.code());
    assert_eq!(1025, ReplicaRole::Primary.code());
    assert_eq!(1026, ReplicaRole::Secondary.code());
    assert_eq!(1027, ReplicaRole::StandBy.code());
    assert_eq!(1028, ReplicaRole::Dropped.code());
    assert_eq!(1029, ReplicaRole::Auxiliary.code());
    assert_eq!(1030, ReplicaRole::StandByAuxiliary.code());
}

#[test]
fn deactivation_statuses_have_their_numbers() {
    assert_eq!(
        0,
        NodeDeactivationStatus::DeactivationSafetyCheckInProgress.code()
    );
    assert_eq!(
        1,
        NodeDeactivationStatus::DeactivationSafetyCheckComplete.code()
    );
    assert_eq!(2, NodeDeactivationStatus::DeactivationComplete.code());
    assert_eq!(3, NodeDeactivationStatus::ActivationInProgress.code());
    assert_eq!(4, NodeDeactivationStatus::NoStatus.code());
}

#[test]
fn a_replica_keeps_what_it_is_given() {
    let r = Replica::new(7, 8, ReplicaRole::Auxiliary, NodeId::new(9));
    assert_eq!(7, r.replica_id);
    assert_eq!(8, r.fu_id);
    assert_eq!(ReplicaRole::Auxiliary, r.role);
    assert_eq!(NodeId::new(9), r.location);
}

#[test]
fn a_default_partition_wants_nothing() {
    let d = FailoverUnitDescription::default();
    assert_eq!(0, d.id);
    assert_eq!("", d.service_name);
    assert!(d.replicas.is_empty());
    assert_eq!(0, d.replica_diff);
}

#[test]
fn a_default_service_is_blank() {
    let d = ServiceDescription::default();
    assert_eq!("", d.service_name);
    assert_eq!("", d.service_type_name);
    assert_eq!("", d.application_name);
    assert!(!d.is_stateful);
    assert!(d.metrics.is_empty());
    assert_eq!(0, d.target_replica_set_size);
    assert_eq!(0, d.partition_count);
}

#[test]
fn a_service_type_is_known_by_its_name() {
    let mut blocked = HashSet::new();
    blocked.insert(NodeId::new(3));
    let t = ServiceType {
        service_type_desc: ServiceTypeDescription::new(String::from("Worker.ISO"), blocked),
    };
    assert_eq!("Worker.ISO", t.service_type_name());
    assert!(t.service_type_desc.block_list.contains(&NodeId::new(3)));
    let d = ServiceTypeDescription::default();
    assert_eq!("", d.name);
    assert!(d.block_list.is_empty());
}

#[test]
fn a_fresh_application_owns_nothing() {
    let mut capacities = HashMap::new();
    capacities.insert(
        String::from("cpu"),
        ApplicationCapacitiesDescription {
            metric_name: String::from("cpu"),
            total_capacity: 10,
            max_instance_capacity: 2,
            reservation_capacity: 1,
        },
    );
    let a = Application::new(ApplicationDescription::new(
        String::from("shop"),
        capacities,
        3,
        1,
        77,
    ));
    assert_eq!("shop", a.app_name());
    assert_eq!(0, a.service_count());
    assert!(!a.owns_service("cart"));
    let d = a.description();
    assert_eq!(3, d.scaleout_count);
    assert_eq!(1, d.minimum_nodes);
    assert_eq!(77, d.application_id);
    assert_eq!(10, d.capacities["cpu"].total_capacity);
}

#[test]
fn application_identifiers_have_their_fixed_texts() {
    assert_eq!("_App", ApplicationIdentifier::delimeter());
    assert_eq!(
        "Fabric_ApplicationId",
        ApplicationIdentifier::env_var_name_application_id()
    );
}

#[test]
fn images_and_stopwatch_defaults() {
    let info = NodeImagesInfo::default();
    assert!(info.repo_tags.is_empty());
    assert!(info.layers.is_empty());
    assert_eq!(0, info.total_image_size);
    let mut tags = HashSet::new();
    tags.insert(String::from("registry/repo:1"));
    let info = NodeImagesInfo::new(tags, HashSet::new(), 512);
    assert!(info.repo_tags.contains("registry/repo:1"));
    assert_eq!(512, info.total_image_size);
    assert_eq!(0, StopwatchTime::default().ticks);
    assert_eq!(-5, StopwatchTime::new(-5).ticks);
}

#[test]
fn in_build_limits_keep_what_they_are_given() {
    let limits = InBuildLimits::default();
    assert_eq!(0, limits.global_in_build_limit);
    assert_eq!(0, limits.balancing_in_build_limit);
    let limits = InBuildLimits::new(NodeInstance::new(NodeId::new(1), 2), 3, 4, 5, 6);
    assert_eq!(NodeId::new(1), limits.node_instance.id);
    assert_eq!(3, limits.global_in_build_limit);
    assert_eq!(4, limits.placement_in_build_limit);
    assert_eq!(5, limits.constraint_check_in_build_limit);
    assert_eq!(6, limits.balancing_in_build_limit);
}

#[test]
fn a_full_node_defaults_to_down() {
    let node = Node::default();
    assert!(!node.node_description.is_up);
    assert_eq!(
        NodeDeactivationIntent::NoIntent,
        node.node_description.deactivation_intent
    );
    assert_eq!(
        NodeDeactivationStatus::NoStatus,
        node.node_description.deactivation_status
    );
    assert_eq!(0, node.pending_block_start_time.ticks);
    let description = FullNodeDescription::new(
        NodeInstance::new(NodeId::new(5), 1),
        true,
        NodeDeactivationIntent::Restart,
        NodeDeactivationStatus::DeactivationComplete,
        HashMap::new(),
        String::from("fd:/dc1"),
        String::from("ud1"),
        HashMap::new(),
        HashMap::new(),
        true,
        false,
    );
    let node = Node::new(
        description,
        NodeImagesInfo::default(),
        InBuildLimits::default(),
        StopwatchTime::new(9),
    );
    assert!(node.node_description.is_up);
    assert_eq!("fd:/dc1", node.node_description.fault_domain_id);
    assert_eq!("ud1", node.node_description.upgrade_domain_id);
    assert!(node.node_description.is_pending_close);
    assert!(!node.node_description.is_replica_uploaded);
    assert_eq!(9, node.pending_block_start_time.ticks);
}
