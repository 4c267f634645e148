use kademlia::action::{
    AddNodeAction, AddNodeStep, AsyncConnectionHandler, FindNodeMessageAction,
    FindValueMessageAction, SendPingReplyMessageAction, StoreKeyValueMessageAction,
};
use kademlia::callback::{ResponseAwaitingCallback, ResponseStatus};
use kademlia::endpoint::Endpoint;
use kademlia::network::AsyncNetwork;
use kademlia::wait::{timeout_response, WaitingList, WaitingListOptions};
use kademlia::executor::{Dispatch, ExecutorKind, ExecutorState, MessageStatus, MessageTypes, SubmitError};
use kademlia::id::Id;
use kademlia::message::Message;
use kademlia::node::Node;
use kademlia::routing::Table;
use kademlia::store::InMemoryStore;

fn id16(v: u16) -> Id {
    Id::new(v.to_be_bytes().to_vec())
}

fn local(port: u16) -> Node {
    Node::new(Endpoint::new("localhost".to_string(), port))
}

#[test]
fn store_round_trip_through_the_executor() {
    let mut store = InMemoryStore::new();
    let mut executor = ExecutorState::new(ExecutorKind::Message);
    let message = Message::store_type(
        "kademlia".as_bytes().to_vec(),
        "distributed hash table".as_bytes().to_vec(),
        local(1909),
    );
    let dispatch = executor.dispatch(&message);
    assert_eq!(Dispatch::Act(MessageTypes::Store, MessageStatus::StoreDone), dispatch);
    StoreKeyValueMessageAction::act_on(&mut store, message);
    assert_eq!(Some("distributed hash table".as_bytes().to_vec()), store.get(&"kademlia".as_bytes().to_vec()));
}

#[test]
fn act_on_store_message_and_store_the_key_value_in_store() {
    let mut store = InMemoryStore::new();
    let message = Message::store_type(
        "kademlia".as_bytes().to_vec(),
        "distributed hash table".as_bytes().to_vec(),
        Node::new_with_id(Endpoint::new("localhost".to_string(), 1909), id16(511)),
    );
    StoreKeyValueMessageAction::act_on(&mut store, message);

    let value = store.get(&"kademlia".as_bytes().to_vec());
    assert!(value.is_some());
    assert_eq!("distributed hash table", String::from_utf8(value.unwrap()).unwrap());
}

#[test]
fn ping_gets_a_ping_reply() {
    let current = local(9090);
    let mut executor = ExecutorState::new(ExecutorKind::Message);
    let mut ping = Message::ping_type(local(7565));
    ping.set_message_id(10);
    assert_eq!(Dispatch::Act(MessageTypes::Ping, MessageStatus::PingDone), executor.dispatch(&ping));

    let (reply, to) = SendPingReplyMessageAction::act_on(&current, ping).unwrap();
    assert_eq!("localhost:7565", to.address());
    let framed = reply.serialize().unwrap();
    let read_back = Message::deserialize_from(&framed).unwrap();
    match read_back {
        Message::PingReply { message_id, to } => {
            assert_eq!(10, message_id);
            assert_eq!("localhost:9090", to.endpoint().address());
            assert_eq!(&Id::generate_from("localhost:9090".to_string()), to.node_id());
        },
        _ => panic!("expected a ping reply"),
    }
}

#[test]
fn ping_without_message_id_is_dropped() {
    let ping = Message::ping_type(local(7565));
    assert!(SendPingReplyMessageAction::act_on(&local(9090), ping).is_none());
}

#[test]
fn act_on_find_value_message_given_value_for_the_key_is_found_in_store() {
    let mut store = InMemoryStore::new();
    store.put("kademlia".as_bytes().to_vec(), "distributed hash table".as_bytes().to_vec());
    let table = Table::new(id16(255));
    let mut message = Message::find_value_type(
        Node::new_with_id(Endpoint::new("localhost".to_string(), 8712), id16(511)),
        "kademlia".as_bytes().to_vec(),
    );
    message.set_message_id(100);

    let (reply, to) = FindValueMessageAction::act_on(&store, &table, &message).unwrap();
    assert_eq!("localhost:8712", to.address());
    assert!(reply.is_find_value_reply_type());
    if let Message::FindValueReply { message_id, value, neighbors } = reply {
        assert_eq!(100, message_id);
        assert_eq!("distributed hash table", String::from_utf8(value.unwrap()).unwrap());
        assert!(neighbors.is_none());
    }
}

#[test]
fn act_on_find_value_message_given_value_for_the_key_is_not_found_in_store() {
    let store = InMemoryStore::new();
    let mut table = Table::new(id16(255));
    table.add(Node::new_with_id(Endpoint::new("localhost".to_string(), 7070), id16(247)));
    table.add(Node::new_with_id(Endpoint::new("localhost".to_string(), 8989), id16(249)));

    let mut message = Message::find_value_type(
        Node::new_with_id(Endpoint::new("localhost".to_string(), 9912), id16(511)),
        "kademlia".as_bytes().to_vec(),
    );
    message.set_message_id(100);

    let (reply, to) = FindValueMessageAction::act_on(&store, &table, &message).unwrap();
    assert_eq!("localhost:9912", to.address());
    assert!(reply.is_find_value_reply_type());
    if let Message::FindValueReply { message_id, value, neighbors } = reply {
        assert_eq!(100, message_id);
        assert!(value.is_none());
        let neighbors = neighbors.unwrap();
        assert_eq!(2, neighbors.len());
        assert_eq!(&id16(247), neighbors.get(0).unwrap().node_id());
        assert_eq!(&id16(249), neighbors.get(1).unwrap().node_id());
    }
}

#[test]
fn find_value_without_message_id_is_dropped() {
    let store = InMemoryStore::new();
    let table = Table::new(id16(255));
    let message = Message::find_value_type(local(9912), "kademlia".as_bytes().to_vec());
    assert!(FindValueMessageAction::act_on(&store, &table, &message).is_none());
}

#[test]
fn act_on_find_node_message() {
    let mut table = Table::new(id16(255));
    table.add(Node::new_with_id(Endpoint::new("localhost".to_string(), 7070), id16(249)));
    table.add(Node::new_with_id(Endpoint::new("localhost".to_string(), 8989), id16(247)));

    let mut message = Message::find_node_type(Node::new_with_id(
        Endpoint::new("localhost".to_string(), 9920),
        id16(250),
    ));
    message.set_message_id(100);

    let (reply, to) = FindNodeMessageAction::act_on(&table, &message).unwrap();
    assert_eq!("localhost:9920", to.address());
    assert!(reply.is_find_node_reply_type());
    if let Message::FindNodeReply { message_id, neighbors } = reply {
        assert_eq!(100, message_id);
        assert_eq!(2, neighbors.len());
        assert_eq!(&id16(249), neighbors.get(0).unwrap().node_id());
        assert_eq!(&id16(247), neighbors.get(1).unwrap().node_id());
    }
}

#[test]
fn act_on_add_node_message_and_add_the_node_in_routing_table() {
    let mut table = Table::new(id16(255));
    let step = AddNodeAction::act_on(
        &mut table,
        Message::add_node_type(Node::new_with_id(Endpoint::new("localhost".to_string(), 8434), id16(511))),
    );
    assert!(matches!(step, AddNodeStep::Done));

    let node = Node::new_with_id(Endpoint::new("localhost".to_string(), 8434), id16(511));
    let (_, contains) = table.contains(&node);
    assert!(contains);
}

#[test]
fn act_on_add_node_message_given_the_bucket_capacity_is_full_and_the_node_to_ping_does_not_reply() {
    let current = Node::new_with_id(Endpoint::new("localhost".to_string(), 1909), id16(255));
    let mut table = Table::new_with_bucket_capacity(id16(255), 1);
    let mut waiting_list = WaitingList::new(WaitingListOptions::new(120, 30));
    let mut network = AsyncNetwork::new();
    let x = Node::new_with_id(Endpoint::new("localhost".to_string(), 8436), id16(511));
    let y = Node::new_with_id(Endpoint::new("localhost".to_string(), 7880), id16(511));

    let step = AddNodeAction::act_on(&mut table, Message::add_node_type(x.clone()));
    assert!(matches!(step, AddNodeStep::Done));

    let step = AddNodeAction::act_on(&mut table, Message::add_node_type(y.clone()));
    match step {
        AddNodeStep::PingOldest { bucket_index, oldest, candidate } => {
            assert_eq!(x, oldest);
            assert_eq!(y, candidate);
            let registered = network.register_expecting_reply(
                &mut waiting_list,
                Message::ping_type(current.clone()),
                ResponseAwaitingCallback::new(),
                1_000,
            );
            let (ping, _) = registered.ok().unwrap();
            assert!(ping.is_ping_type());
            assert!(waiting_list.clean(1_120).is_empty());
            let mut expired = waiting_list.clean(1_121);
            assert_eq!(1, expired.len());
            let (mut callback, error) = expired.pop().unwrap();
            assert_eq!(1, error.message_id);
            callback.on_response(timeout_response(error.message_id));
            let answered = callback.handle().status() == Some(ResponseStatus::Answered);
            assert!(!answered);
            AddNodeAction::on_ping_outcome(&mut table, bucket_index, &oldest, candidate, answered);
        },
        AddNodeStep::Done => panic!("expected a ping of the oldest node"),
    }

    assert!(table.contains(&y).1);
    assert_eq!(false, table.contains(&x).1);
}

#[test]
fn act_on_add_node_message_given_the_bucket_capacity_is_full() {
    let mut table = Table::new_with_bucket_capacity(id16(255), 1);
    let x = Node::new_with_id(Endpoint::new("localhost".to_string(), 8434), id16(511));
    let y = Node::new_with_id(Endpoint::new("localhost".to_string(), 7878), id16(511));

    AddNodeAction::act_on(&mut table, Message::add_node_type(x.clone()));
    if let AddNodeStep::PingOldest { bucket_index, oldest, candidate } =
        AddNodeAction::act_on(&mut table, Message::add_node_type(y.clone()))
    {
        AddNodeAction::on_ping_outcome(&mut table, bucket_index, &oldest, candidate, false);
    }

    assert!(table.contains(&y).1);
    assert_eq!(false, table.contains(&x).1);
}

#[test]
fn answered_ping_keeps_the_incumbent() {
    let mut table = Table::new_with_bucket_capacity(id16(255), 1);
    let x = Node::new_with_id(Endpoint::new("localhost".to_string(), 8434), id16(511));
    let y = Node::new_with_id(Endpoint::new("localhost".to_string(), 7878), id16(511));
    AddNodeAction::act_on(&mut table, Message::add_node_type(x.clone()));
    if let AddNodeStep::PingOldest { bucket_index, oldest, candidate } =
        AddNodeAction::act_on(&mut table, Message::add_node_type(y.clone()))
    {
        AddNodeAction::on_ping_outcome(&mut table, bucket_index, &oldest, candidate, true);
    } else {
        panic!("expected a ping of the oldest node");
    }
    assert!(table.contains(&x).1);
    assert!(!table.contains(&y).1);
}

#[test]
fn submit_a_message_after_shutdown() {
    let mut executor = ExecutorState::new(ExecutorKind::Message);
    assert_eq!(Ok(()), executor.accept_submission());
    assert_eq!(Dispatch::Stop, executor.dispatch(&Message::shutdown_type()));
    assert_eq!(Err(SubmitError::QueueClosed), executor.accept_submission());
}

#[test]
fn node_submit_a_message_after_shutdown() {
    let mut executor = ExecutorState::new(ExecutorKind::AddNode);
    assert_eq!(Dispatch::Act(MessageTypes::AddNode, MessageStatus::AddNodeDone), executor.dispatch(&Message::add_node_type(local(1909))));
    assert_eq!(Ok(()), executor.accept_submission());
    assert_eq!(Dispatch::Stop, executor.dispatch(&Message::shutdown_type()));
    assert_eq!(Err(SubmitError::QueueClosed), executor.accept_submission());
    assert_eq!(Dispatch::Ignore, executor.dispatch(&Message::ping_type(local(1))));
    assert_eq!(Err(SubmitError::QueueClosed), executor.accept_submission());
}

#[test]
fn replies_go_to_the_waiting_list_under_their_identifier() {
    let mut executor = ExecutorState::new(ExecutorKind::Message);
    assert_eq!(Dispatch::Deliver(100), executor.dispatch(&Message::ping_reply_type(local(1), 100)));
    assert_eq!(Dispatch::Deliver(7), executor.dispatch(&Message::find_node_reply_type(7, vec![])));
    assert_eq!(Dispatch::Deliver(8), executor.dispatch(&Message::find_value_reply_type(8, Some(vec![1]), None)));
    assert_eq!(Dispatch::Ignore, executor.dispatch(&Message::add_node_type(local(1))));
    let mut find_node = Message::find_node_type(local(2));
    find_node.set_message_id(3);
    assert_eq!(Dispatch::Act(MessageTypes::FindNode, MessageStatus::FindNodeDone), executor.dispatch(&find_node));
    let status = MessageStatus::FindValueDone;
    assert!(status.is_find_value_done());
    assert!(!status.is_store_done());
    assert!(MessageStatus::ReplyDone.is_reply_done());
}

#[test]
fn connection_handler_adds_the_source_of_requests() {
    let node = local(9015);
    let store = Message::store_type(vec![1], vec![2], node.clone());
    let add = AsyncConnectionHandler::add_node_message_for(&store).unwrap();
    assert!(add.is_add_node_type());
    assert_eq!(Some(node.clone()), add.source());
    assert!(AsyncConnectionHandler::add_node_message_for(&Message::ping_reply_type(node, 1)).is_none());
    assert!(AsyncConnectionHandler::add_node_message_for(&Message::shutdown_type()).is_none());
}

fn deliver_reply(reply: Message) -> Vec<Message> {
    let mut executor = ExecutorState::new(ExecutorKind::Message);
    let mut waiting_list: WaitingList<Vec<Message>> = WaitingList::new(WaitingListOptions::new(120_000, 100));
    waiting_list.add(100, Vec::new(), 0);
    let mut delivered = Vec::new();
    if let Dispatch::Deliver(message_id) = executor.dispatch(&reply) {
        if let Some(mut received) = waiting_list.handle_response(message_id) {
            received.push(reply);
            delivered = received;
        }
    }
    assert!(!waiting_list.contains(&100));
    delivered
}

#[test]
fn submit_ping_reply_message() {
    let node = local(9090);
    let delivered = deliver_reply(Message::ping_reply_type(node, 100));
    assert!(delivered.get(0).unwrap().is_ping_reply_type());
}

#[test]
fn submit_find_value_reply() {
    let delivered = deliver_reply(Message::find_value_reply_type(100, Some("kademlia".as_bytes().to_vec()), None));
    assert!(delivered.get(0).unwrap().is_find_value_reply_type());
}

#[test]
fn submit_find_node_reply() {
    let delivered = deliver_reply(Message::find_node_reply_type(100, vec![]));
    assert!(delivered.get(0).unwrap().is_find_node_reply_type());
}

#[test]
fn submit_two_store_messages() {
    let mut store = InMemoryStore::new();
    let mut executor = ExecutorState::new(ExecutorKind::Message);
    for (key, value) in [("kademlia", "distributed hash table"), ("store type", "in-memory")] {
        let message = Message::store_type(key.as_bytes().to_vec(), value.as_bytes().to_vec(), local(1909));
        assert!(executor.dispatch(&message) == Dispatch::Act(MessageTypes::Store, MessageStatus::StoreDone));
        StoreKeyValueMessageAction::act_on(&mut store, message);
    }
    assert_eq!("distributed hash table", String::from_utf8(store.get(&"kademlia".as_bytes().to_vec()).unwrap()).unwrap());
    assert_eq!("in-memory", String::from_utf8(store.get(&"store type".as_bytes().to_vec()).unwrap()).unwrap());
}
