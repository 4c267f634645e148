use kademlia::endpoint::Endpoint;
use kademlia::id::Id;
use kademlia::neighbors::ClosestNeighbors;
use kademlia::node::Node;
use kademlia::routing::Table;

fn id16(v: u16) -> Id {
    Id::new(v.to_be_bytes().to_vec())
}

fn node_at(port: u16, id: u16) -> Node {
    Node::new_with_id(Endpoint::new("localhost".to_string(), port), id16(id))
}

#[test]
fn routing_table_add_a_node_to_routing_table() {
    let mut routing_table = Table::new(id16(255));
    let (_, added) = routing_table.add(Node::new(Endpoint::new("localhost".to_string(), 2379)));
    assert!(added)
}

#[test]
fn routing_table_do_not_add_an_existing_node_to_routing_table() {
    let mut routing_table = Table::new(id16(255));
    assert!(routing_table.add(Node::new(Endpoint::new("localhost".to_string(), 2379))).1);
    assert_eq!(false, routing_table.add(Node::new(Endpoint::new("localhost".to_string(), 2379))).1)
}

#[test]
fn routing_table_remove_an_existing_node() {
    let mut routing_table = Table::new(id16(255));
    assert!(routing_table.add(Node::new(Endpoint::new("localhost".to_string(), 2379))).1);

    let node = &Node::new(Endpoint::new("localhost".to_string(), 2379));
    let deleted = routing_table.remove(node);
    assert!(deleted);

    let (_, contains) = routing_table.contains(node);
    assert_eq!(false, contains);
}

#[test]
fn routing_table_do_not_remove_a_non_existing_node() {
    let mut routing_table = Table::new(id16(255));
    let node = &Node::new(Endpoint::new("localhost".to_string(), 1000));
    let deleted = routing_table.remove(node);
    assert_eq!(false, deleted);
}

#[test]
fn routing_table_contains_an_existing_node() {
    let mut routing_table = Table::new(id16(511));
    assert!(routing_table.add(Node::new(Endpoint::new("localhost".to_string(), 2379))).1);

    let node = &Node::new(Endpoint::new("localhost".to_string(), 2379));
    let (_, contains) = routing_table.contains(node);
    assert!(contains);
}

#[test]
fn routing_table_does_not_contain_a_node() {
    let routing_table = Table::new(id16(511));
    let node = &Node::new(Endpoint::new("unknown".to_string(), 1010));
    let (_, contains) = routing_table.contains(node);
    assert_eq!(false, contains);
}

#[test]
fn mod_add_a_node_to_routing_table() {
    let mut routing_table = Table::new(id16(255));
    let (_, added) = routing_table.add(Node::new(Endpoint::new("localhost".to_string(), 2379)));
    assert!(added);
}

#[test]
fn mod_do_not_add_an_existing_node_to_routing_table() {
    let mut routing_table = Table::new(id16(255));
    let (_, added) = routing_table.add(Node::new(Endpoint::new("localhost".to_string(), 2379)));
    assert!(added);

    let (_, added) = routing_table.add(Node::new(Endpoint::new("localhost".to_string(), 2379)));
    assert_eq!(false, added);
}

#[test]
fn do_not_add_a_node_to_routing_table_if_the_bucket_capacity_is_full() {
    let mut routing_table = Table::new_with_bucket_capacity(id16(255), 1);
    let (_, added) = routing_table.add(node_at(2379, 247));
    assert!(added);

    let (_, added) = routing_table.add(node_at(8989, 247));
    assert_eq!(false, added);
}

#[test]
fn second_node_of_a_full_bucket_is_not_held() {
    let mut routing_table = Table::new_with_bucket_capacity(id16(255), 1);
    let first = node_at(2379, 247);
    let second = node_at(8989, 247);
    let (bucket, added) = routing_table.add(first.clone());
    assert!(added);
    let (same_bucket, added) = routing_table.add(second.clone());
    assert_eq!(bucket, same_bucket);
    assert!(!added);
    assert!(!routing_table.contains(&second).1);
    assert!(routing_table.contains(&first).1);
}

#[test]
fn adding_twice_leaves_the_table_as_it_was() {
    let mut routing_table = Table::new(id16(255));
    let node = node_at(2379, 247);
    let (bucket, added) = routing_table.add(node.clone());
    assert!(added);
    let (again, added) = routing_table.add(node.clone());
    assert_eq!(bucket, again);
    assert!(!added);
    assert_eq!(routing_table.first_node_in(bucket), Some(node.clone()));
    assert!(routing_table.remove(&node));
    assert!(routing_table.first_node_in(bucket).is_none());
}

#[test]
fn mod_remove_an_existing_node() {
    let mut routing_table = Table::new(id16(255));
    let (_, added) = routing_table.add(Node::new(Endpoint::new("localhost".to_string(), 2379)));
    assert!(added);

    let node = &Node::new(Endpoint::new("localhost".to_string(), 2379));
    let deleted = routing_table.remove(node);
    assert!(deleted);

    let (_, contains) = routing_table.contains(node);
    assert_eq!(false, contains);
}

#[test]
fn mod_do_not_remove_a_non_existing_node() {
    let mut routing_table = Table::new(id16(255));
    let node = &Node::new(Endpoint::new("localhost".to_string(), 1000));
    let deleted = routing_table.remove(node);
    assert_eq!(false, deleted);
}

#[test]
fn remove_and_add_a_node_in_the_same_bucket_1() {
    let mut routing_table = Table::new(id16(255));
    let node = node_at(2379, 247);
    let (bucket_index, added) = routing_table.add(node.clone());
    assert!(added);

    let to_add = node_at(1090, 247);
    routing_table.remove_and_add(bucket_index, &node, to_add.clone());

    let (_, contains) = routing_table.contains(&to_add);
    assert!(contains);

    let (_, contains) = routing_table.contains(&node);
    assert_eq!(false, contains);
}

#[test]
fn remove_and_add_a_node_in_the_same_bucket_2() {
    let mut routing_table = Table::new(id16(255));
    let node = node_at(2379, 247);
    let other_node = node_at(9018, 247);

    let (_, added) = routing_table.add(node.clone());
    assert!(added);

    let (bucket_index, added) = routing_table.add(other_node.clone());
    assert!(added);

    let to_add = node_at(1090, 247);
    routing_table.remove_and_add(bucket_index, &node, to_add.clone());

    let (_, contains) = routing_table.contains(&to_add);
    assert!(contains);

    let (_, contains) = routing_table.contains(&node);
    assert_eq!(false, contains);

    let (_, contains) = routing_table.contains(&other_node);
    assert!(contains);
}

#[test]
fn remove_and_add_keeps_the_table_when_the_node_to_add_is_present() {
    let mut routing_table = Table::new(id16(255));
    let node = node_at(2379, 247);
    let other = node_at(9018, 247);
    let (bucket_index, _) = routing_table.add(node.clone());
    routing_table.add(other.clone());
    routing_table.remove_and_add(bucket_index, &node, other.clone());
    assert!(routing_table.contains(&node).1);
    assert!(routing_table.contains(&other).1);
    assert_eq!(routing_table.first_node_in(bucket_index), Some(node));
}

#[test]
fn mod_contains_an_existing_node() {
    let mut routing_table = Table::new(id16(511));
    let (_, added) = routing_table.add(Node::new(Endpoint::new("localhost".to_string(), 2379)));
    assert!(added);

    let node = &Node::new(Endpoint::new("localhost".to_string(), 2379));
    let (_, contains) = routing_table.contains(node);
    assert!(contains);
}

#[test]
fn mod_does_not_contain_a_node() {
    let routing_table = Table::new(id16(511));
    let node = &Node::new(Endpoint::new("unknown".to_string(), 1010));
    let (_, contains) = routing_table.contains(node);
    assert_eq!(false, contains);
}

#[test]
fn first_node() {
    let mut routing_table = Table::new(id16(511));
    let (bucket_index, added) =
        routing_table.add(Node::new(Endpoint::new("localhost".to_string(), 2379)));
    assert!(added);

    let node = routing_table.first_node_in(bucket_index).unwrap();
    assert_eq!("localhost:2379", node.endpoint().address());
}

#[test]
fn first_node_in_an_empty_bucket() {
    let routing_table = Table::new(id16(511));
    let node = routing_table.first_node_in(0);
    assert!(node.is_none());
}

#[test]
fn single_closest_neighbor_1() {
    let mut routing_table = Table::new(id16(511));
    assert!(routing_table.add(node_at(2379, 511)).1);
    assert!(routing_table.add(node_at(2380, 255)).1);

    let closest_neighbors = routing_table.closest_neighbors(&id16(255), 1);
    assert_eq!(&id16(255), closest_neighbors.node_ids().iter().next().unwrap());
}

#[test]
fn single_closest_neighbor_2() {
    let mut routing_table = Table::new(id16(511));
    assert!(routing_table.add(node_at(2379, 511)).1);
    assert!(routing_table.add(node_at(2380, 255)).1);

    let closest_neighbors = routing_table.closest_neighbors(&id16(510), 1);
    assert_eq!(&id16(511), closest_neighbors.node_ids().iter().next().unwrap());
}

#[test]
fn single_closest_neighbor_3() {
    let mut routing_table = Table::new(id16(511));
    assert!(routing_table.add(node_at(2379, 511)).1);
    assert!(routing_table.add(node_at(2380, 255)).1);

    let closest_neighbors = routing_table.closest_neighbors(&id16(247), 1);
    assert_eq!(&id16(255), closest_neighbors.node_ids().iter().next().unwrap());
}

#[test]
fn single_closest_neighbor_4() {
    let mut routing_table = Table::new(id16(511));
    assert!(routing_table.add(node_at(2379, 511)).1);
    assert!(routing_table.add(node_at(2380, 509)).1);

    let closest_neighbors = routing_table.closest_neighbors(&id16(255), 1);
    assert_eq!(&id16(509), closest_neighbors.node_ids().iter().next().unwrap());
}

#[test]
fn closest_neighbors_are_distinct_bounded_and_sorted() {
    let mut routing_table = Table::new(id16(0));
    for v in [1u16, 2, 3, 4, 8, 16, 255, 256, 1024, 40000] {
        assert!(routing_table.add(node_at(v, v)).1);
    }
    let target = id16(5);
    let neighbors = routing_table.closest_neighbors(&target, 4);
    let ids: Vec<u16> = neighbors
        .node_ids()
        .iter()
        .map(|id| u16::from_be_bytes([id.bytes()[0], id.bytes()[1]]))
        .collect();
    assert_eq!(4, ids.len());
    for pair in ids.windows(2) {
        assert!((pair[0] ^ 5) < (pair[1] ^ 5));
    }
    let all = routing_table.closest_neighbors(&target, 100);
    assert_eq!(10, all.len());
    let none = routing_table.closest_neighbors(&target, 0);
    assert_eq!(0, none.len());
}

#[test]
fn adjacent_bucket_indices_alternate_up_and_down() {
    let routing_table = Table::new(id16(0));
    assert_eq!(
        vec![3, 4, 2, 5, 1, 6, 0, 7, 8, 9, 10, 11, 12, 13, 14, 15],
        routing_table.all_adjacent_bucket_indices(3)
    );
    assert_eq!(
        vec![15, 14, 13, 12, 11, 10, 9, 8, 7, 6, 5, 4, 3, 2, 1, 0],
        routing_table.all_adjacent_bucket_indices(15)
    );
}

#[test]
fn bucket_index_is_the_differing_bit_position() {
    let routing_table = Table::new(id16(255));
    assert_eq!(3, routing_table.bucket_index(&id16(247)));
    assert_eq!(8, Table::new(id16(511)).bucket_index(&id16(255)));
}

#[test]
fn adds_nodes_to_closest_neighbors() {
    let target = id16(511);
    let node_a = Node::new_with_id(Endpoint::new("localhost".to_string(), 1239), Id::new(vec![10, 20]));
    let node_b = Node::new_with_id(Endpoint::new("localhost".to_string(), 1243), Id::new(vec![40, 20]));
    let nodes = vec![node_a, node_b];

    let mut closest_neighbors = ClosestNeighbors::new(1, target);
    closest_neighbors.add_missing(&nodes);

    assert_eq!(1, closest_neighbors.all_nodes().len());
    assert_eq!(1, closest_neighbors.node_ids().len());
}

#[test]
fn adds_unique_nodes_to_closest_neighbors() {
    let target = id16(511);
    let node_a = Node::new_with_id(Endpoint::new("localhost".to_string(), 1239), Id::new(vec![10, 20]));
    let node_b = Node::new_with_id(Endpoint::new("localhost".to_string(), 1243), Id::new(vec![40, 20]));
    let node_c = Node::new_with_id(Endpoint::new("localhost".to_string(), 1239), Id::new(vec![10, 20]));
    let nodes = vec![node_a, node_b, node_c];

    let mut closest_neighbors = ClosestNeighbors::new(2, target);
    closest_neighbors.add_missing(&nodes);

    assert_eq!(2, closest_neighbors.all_nodes().len());
    assert_eq!(2, closest_neighbors.node_ids().len());
}

#[test]
fn add_missing_reports_a_full_collection() {
    let mut closest_neighbors = ClosestNeighbors::new(1, id16(1));
    assert!(closest_neighbors.add_missing(&vec![node_at(1, 1)]));
    assert!(!closest_neighbors.add_missing(&vec![node_at(2, 2)]));
    assert!(closest_neighbors.add_missing(&vec![]));
    assert_eq!(1, closest_neighbors.len());
}

#[test]
fn sorts_closest_neighbors_by_distance_from_target() {
    let target = id16(247);
    let node_a = Node::new_with_id(Endpoint::new("localhost".to_string(), 1243), id16(511));
    let node_b = Node::new_with_id(Endpoint::new("localhost".to_string(), 1239), id16(255));
    let nodes = vec![node_a, node_b];

    let mut closest_neighbors = ClosestNeighbors::new(2, target);
    closest_neighbors.add_missing(&nodes);
    closest_neighbors.sort_ascending_by_distance();

    assert_eq!(&id16(255), closest_neighbors.all_nodes()[0].id());
    assert_eq!(&id16(511), closest_neighbors.all_nodes()[1].id());
}
