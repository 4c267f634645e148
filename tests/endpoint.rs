use kademlia::endpoint::Endpoint;
use kademlia::node::Node;
use num_bigint::{BigInt, Sign};

#[test]
fn endpoint_endpoint_with_localhost() {
    let endpoint = Endpoint::new("localhost".to_string(), 2379);
    assert_eq!("localhost:2379", endpoint.address())
}

#[test]
fn endpoint_endpoint_with_ip() {
    let endpoint = Endpoint::new("127.0.0.1".to_string(), 2379);
    assert_eq!("127.0.0.1:2379", endpoint.address())
}

#[test]
fn endpoint_with_the_smallest_and_largest_ports() {
    assert_eq!("h:0", Endpoint::new("h".to_string(), 0).address());
    assert_eq!("h:65535", Endpoint::new("h".to_string(), 65535).address());
    assert_eq!(":10", Endpoint::new(String::new(), 10).address());
}

#[test]
fn node_node_equals_itself() {
    let node = Node::new(Endpoint::new("localhost".to_string(), 2330));
    assert!(node.eq(&node))
}

#[test]
fn node_node_equals_other_node() {
    let node = Node::new(Endpoint::new("localhost".to_string(), 2330));
    let other_node = Node::new(Endpoint::new("localhost".to_string(), 2330));
    assert!(node.eq(&other_node))
}

#[test]
fn node_node_does_not_equal_other_node() {
    let node = Node::new(Endpoint::new("localhost".to_string(), 2330));
    let other_node = Node::new(Endpoint::new("localhost".to_string(), 1982));
    assert!(node.ne(&other_node))
}

#[test]
fn node_distance_from_other_node() {
    let node = Node::new(Endpoint::new("localhost".to_string(), 2330));
    let other_node = Node::new(Endpoint::new("localhost".to_string(), 1982));

    let distance = BigInt::from_bytes_be(Sign::Plus, &node.distance_from(&other_node));
    let expected_distance_greater_than: u8 = 0;
    assert!(distance.gt(&BigInt::from(expected_distance_greater_than)));
}

#[test]
fn distance_from_itself() {
    let node = Node::new(Endpoint::new("localhost".to_string(), 2330));

    let distance = BigInt::from_bytes_be(Sign::Plus, &node.distance_from(&node));
    let expected_distance: u8 = 0;
    assert!(distance.eq(&BigInt::from(expected_distance)));
}

#[test]
fn node_id_is_the_hash_of_its_address() {
    let node = Node::new(Endpoint::new("localhost".to_string(), 2330));
    assert_eq!(node.id(), &kademlia::id::Id::generate_from("localhost:2330".to_string()));
}
