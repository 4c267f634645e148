use kademlia::codec::CodecError;
use kademlia::endpoint::Endpoint;
use kademlia::id::{Id, EXPECTED_ID_LENGTH_IN_BYTES};
use kademlia::message::{Message, Source};
use kademlia::node::Node;

fn round_trip(message: &Message) -> Message {
    let serialized = message.serialize().unwrap();
    Message::deserialize_from(&serialized).unwrap()
}

#[test]
fn message_serialize_deserialize_a_store_message() {
    let store_type = Message::store_type(
        "kademlia".as_bytes().to_vec(),
        "distributed hash table".as_bytes().to_vec(),
        Node::new_with_id(Endpoint::new("localhost".to_string(), 1010), Id::new(vec![10, 20])),
    );
    let deserialized = round_trip(&store_type);

    assert!(deserialized.is_store_type());
    match deserialized {
        Message::Store { key, key_id: _, value, source } => {
            assert_eq!("kademlia", String::from_utf8(key).unwrap());
            assert_eq!("distributed hash table", String::from_utf8(value).unwrap());
            assert_eq!(&Id::new(vec![10, 20]), source.node_id());
        },
        _ => {
            panic!("Expected store type message, but was not");
        },
    }
}

#[test]
fn message_serialize_deserialize_a_find_value_message() {
    let node = Node::new(Endpoint::new("localhost".to_string(), 1010));
    let find_value_type = Message::find_value_type(node, "kademlia".as_bytes().to_vec());
    let deserialized = round_trip(&find_value_type);

    assert!(deserialized.is_find_value_type());
    match deserialized {
        Message::FindValue { key, .. } => {
            assert_eq!("kademlia", String::from_utf8(key).unwrap())
        },
        _ => {
            panic!("Expected findValue type message, but was not");
        },
    }
}

#[test]
fn serialize_deserialize_a_find_value_message_with_message_id() {
    let node = Node::new(Endpoint::new("localhost".to_string(), 1010));
    let mut find_value_type = Message::find_value_type(node, "kademlia".as_bytes().to_vec());
    find_value_type.set_message_id(10);

    let deserialized = round_trip(&find_value_type);

    assert!(deserialized.is_find_value_type());
    match deserialized {
        Message::FindValue { message_id, key, .. } => {
            assert_eq!("kademlia", String::from_utf8(key).unwrap());
            assert_eq!(Some(10), message_id);
        },
        _ => {
            panic!("Expected findValue type message, but was not");
        },
    }
}

#[test]
fn serialize_deserialize_a_find_value_reply_message_with_value() {
    let find_value_reply_type =
        Message::find_value_reply_type(10, Some("kademlia".as_bytes().to_vec()), None);
    let deserialized = round_trip(&find_value_reply_type);

    assert!(deserialized.is_find_value_reply_type());
    match deserialized {
        Message::FindValueReply { message_id, value, neighbors } => {
            assert_eq!(10, message_id);
            assert_eq!(Some("kademlia".as_bytes().to_vec()), value);
            assert!(neighbors.is_none());
        },
        _ => {
            panic!("Expected findValueReply type message, but was not");
        },
    }
}

#[test]
fn serialize_deserialize_a_find_value_reply_message_with_closest_neighbors() {
    let node = Node::new(Endpoint::new("localhost".to_string(), 1010));
    let mut neighbors = Vec::with_capacity(1);
    neighbors.push(Source::new(&node));

    let find_value_reply_type = Message::find_value_reply_type(10, None, Some(neighbors));
    let deserialized = round_trip(&find_value_reply_type);

    assert!(deserialized.is_find_value_reply_type());
    match deserialized {
        Message::FindValueReply { message_id, value, neighbors } => {
            assert_eq!(10, message_id);
            assert_eq!(value, None);
            assert_eq!("localhost:1010", neighbors.unwrap().get(0).unwrap().endpoint().address());
        },
        _ => {
            panic!("Expected findValueReply type message, but was not");
        },
    }
}

#[test]
fn message_serialize_deserialize_a_find_node_message() {
    let node = Node::new(Endpoint::new("localhost".to_string(), 1010));
    let find_node_type = Message::find_node_type(node);
    let deserialized = round_trip(&find_node_type);

    assert!(deserialized.is_find_node_type());
    match deserialized {
        Message::FindNode { node_id, .. } => {
            assert_eq!(EXPECTED_ID_LENGTH_IN_BYTES, node_id.len())
        },
        _ => {
            panic!("Expected findNode type message, but was not");
        },
    }
}

#[test]
fn every_variant_survives_a_round_trip() {
    let node = Node::new_with_id(Endpoint::new("héllo".to_string(), 65535), Id::new(vec![1, 2, 3]));
    let other = Node::new(Endpoint::new("10.0.0.1".to_string(), 1));
    let mut find_node = Message::find_node_type(node.clone());
    find_node.set_message_id(-7);
    let mut ping = Message::ping_type(node.clone());
    ping.set_message_id(i64::MAX);
    let messages = vec![
        Message::store_type(vec![], vec![0, 255], node.clone()),
        Message::add_node_type(other.clone()),
        Message::find_value_type(node.clone(), vec![9; 300]),
        Message::find_value_reply_type(i64::MIN, Some(vec![]), None),
        Message::find_value_reply_type(3, None, Some(vec![])),
        Message::find_value_reply_type(4, Some(vec![1]), Some(vec![Source::new(&node), Source::new(&other)])),
        find_node,
        Message::find_node_reply_type(5, vec![Source::new(&other), Source::new(&node)]),
        Message::ping_type(other.clone()),
        ping,
        Message::ping_reply_type(other.clone(), 0),
        Message::shutdown_type(),
    ];
    for message in messages.iter() {
        let back = round_trip(message);
        assert_eq!(format!("{:?}", message), format!("{:?}", back));
    }
}

#[test]
fn frame_starts_with_the_big_endian_body_length() {
    let serialized = Message::shutdown_type().serialize().unwrap();
    assert_eq!(vec![0, 0, 0, 1, 8], serialized);
    let serialized = Message::ping_reply_type(Node::new_with_id(Endpoint::new("a".to_string(), 258), Id::new(vec![7])), 1)
        .serialize()
        .unwrap();
    let body_length = u32::from_be_bytes([serialized[0], serialized[1], serialized[2], serialized[3]]) as usize;
    assert_eq!(serialized.len() - 4, body_length);
    assert_eq!(7, serialized[4]);
}

#[test]
fn malformed_frames_are_rejected() {
    assert_eq!(Some(CodecError::Malformed), Message::deserialize_from(&[0, 0, 0]).err());
    assert_eq!(Some(CodecError::Malformed), Message::deserialize_from(&[0, 0, 0, 2, 8]).err());
    assert_eq!(Some(CodecError::Malformed), Message::deserialize_from(&[0, 0, 0, 1, 9]).err());
    assert_eq!(Some(CodecError::Malformed), Message::deserialize_from(&[0, 0, 0, 2, 8, 0]).err());
    assert_eq!(Some(CodecError::Malformed), Message::deserialize_from(&[0, 0, 0, 7, 1, 2, 0, 0, 0, 0xff, 0xfe]).err());
    assert!(Message::deserialize_from(&[0, 0, 0, 1, 8, 99]).unwrap().is_shutdown_type());
}

#[test]
fn set_message_id_in_find_value() {
    let node = Node::new(Endpoint::new("localhost".to_string(), 1010));
    let mut find_value_type = Message::find_value_type(node, "kademlia".as_bytes().to_vec());
    find_value_type.set_message_id(100);

    assert!(find_value_type.is_find_value_type());
    if let Message::FindValue { message_id, .. } = find_value_type {
        assert_eq!(Some(100), message_id);
    }
}

#[test]
fn set_message_id_in_find_node() {
    let node = Node::new(Endpoint::new("localhost".to_string(), 1010));
    let mut find_node_type = Message::find_node_type(node);
    find_node_type.set_message_id(100);

    assert!(find_node_type.is_find_node_type());
    if let Message::FindNode { message_id, .. } = find_node_type {
        assert_eq!(Some(100), message_id);
    }
}

#[test]
fn set_message_id_in_ping() {
    let mut ping_type = Message::ping_type(Node::new(Endpoint::new("localhost".to_string(), 2334)));
    ping_type.set_message_id(100);

    assert!(ping_type.is_ping_type());
    if let Message::Ping { message_id, .. } = ping_type {
        assert_eq!(Some(100), message_id);
    }
}

#[test]
fn set_message_id_leaves_other_messages_alone() {
    let mut reply = Message::ping_reply_type(Node::new(Endpoint::new("localhost".to_string(), 1)), 3);
    reply.set_message_id(100);
    assert_eq!(Some(3), reply.reply_id());
    let mut shutdown = Message::shutdown_type();
    shutdown.set_message_id(100);
    assert!(shutdown.is_shutdown_type());
    assert_eq!(None, shutdown.reply_id());
}

#[test]
fn source_of_requests_only() {
    let node = Node::new(Endpoint::new("localhost".to_string(), 1909));
    assert_eq!(Some(node.clone()), Message::ping_type(node.clone()).source());
    assert_eq!(Some(node.clone()), Message::store_type(vec![1], vec![2], node.clone()).source());
    assert_eq!(None, Message::ping_reply_type(node.clone(), 1).source());
    assert_eq!(None, Message::shutdown_type().source());
    let source = Source::new(&node);
    assert_eq!(node, source.to_node());
}
