use plb::common::largeinteger::LargeInteger;
use plb::federation::nodeid::NodeId;

#[test]
fn test_default_node_id() {
    let node_id = NodeId::default();
    assert_eq!(node_id.id_value, LargeInteger::default());
}

#[test]
fn test_new_node_id() {
    let large_integer = LargeInteger::new(123, 456);
    let node_id = NodeId::new(large_integer);
    assert_eq!(node_id.id_value, large_integer);
}
