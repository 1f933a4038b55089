use plb::node::node_id::NodeId;
use plb::node::node_instance::NodeInstance;

#[test]
fn test_default() {
    let node_instance = NodeInstance::default();
    assert_eq!(node_instance.id, NodeId::default());
    assert_eq!(node_instance.instance_id, 0);
}

#[test]
fn test_new() {
    let node_id = NodeId::new(456);
    let instance_id = 123;
    let node_instance = NodeInstance::new(node_id, instance_id);
    assert_eq!(node_instance.id, node_id);
    assert_eq!(node_instance.instance_id, instance_id);
}
