use kademlia::endpoint::Endpoint;
use kademlia::node::Node;
use kademlia::callback::{ResponseAwaitingCallback, ResponseStatus};
use kademlia::message::{Message, MessageId};
use kademlia::network::AsyncNetwork;
use kademlia::wait::{
    timeout_response, Response, ResponseError, ResponseTimeoutError, TimedCallback, WaitingList,
    WaitingListOptions,
};
use std::cell::RefCell;
use std::rc::Rc;

#[derive(Clone)]
struct TestCallback {
    responses: Rc<RefCell<Vec<Response>>>,
}

impl TestCallback {
    fn new() -> TestCallback {
        TestCallback { responses: Rc::new(RefCell::new(Vec::new())) }
    }

    fn on_response(&self, response: Response) {
        self.responses.borrow_mut().push(response);
    }
}

fn options() -> WaitingListOptions {
    WaitingListOptions::new(120_000, 100)
}

#[test]
fn add_callback_to_waiting_list() {
    let mut waiting_list = WaitingList::new(options());
    let callback = TestCallback::new();

    let message_id: MessageId = 10;
    waiting_list.add(message_id, callback.clone(), 0);
    if let Some(waiting) = waiting_list.handle_response(message_id) {
        waiting.on_response(Ok(Message::shutdown_type()));
    }

    let responses = callback.responses.borrow();
    let message = responses.get(0).unwrap().as_ref().unwrap();
    assert!(message.is_shutdown_type());

    waiting_list.stop();
}

#[test]
fn add_failure_callback_to_waiting_list() {
    let mut waiting_list = WaitingList::new(options());
    let callback = TestCallback::new();

    let message_id: MessageId = 10;
    waiting_list.add(message_id, callback.clone(), 0);
    if let Some(waiting) = waiting_list.handle_response(message_id) {
        waiting.on_response(Err(ResponseError::Failed("test error".to_string())));
    }

    let responses = callback.responses.borrow();
    match responses.get(0).unwrap() {
        Err(ResponseError::Failed(msg)) => assert_eq!("test error", msg),
        _ => panic!("expected the failure"),
    }

    waiting_list.stop();
}

#[test]
fn handle_response_for_unknown_message_id() {
    let mut waiting_list = WaitingList::new(options());
    let callback = TestCallback::new();

    let message_id: MessageId = 10;
    let unknown_message_id: MessageId = 20;

    waiting_list.add(message_id, callback.clone(), 0);
    if let Some(waiting) = waiting_list.handle_response(unknown_message_id) {
        waiting.on_response(Ok(Message::shutdown_type()));
    }

    assert!(callback.responses.borrow().get(0).is_none());
    assert!(waiting_list.contains(&message_id));

    waiting_list.stop();
}

#[test]
fn expire_a_pending_response() {
    let mut waiting_list = WaitingList::new(WaitingListOptions::new(120, 5));
    let callback = TestCallback::new();

    let message_id: MessageId = 10;
    waiting_list.add(message_id, callback, 1_000);

    let expired = waiting_list.clean(2_000);

    assert_eq!(1, expired.len());
    assert!(!waiting_list.contains(&message_id));
    waiting_list.stop();
    assert!(waiting_list.is_stopped());
}

#[test]
fn error_response_on_expired_key() {
    let message_id: MessageId = 1;
    let mut waiting_list = WaitingList::new(WaitingListOptions::new(2_000, 0));
    let now = 1_000_000u64;
    waiting_list.add(message_id, TestCallback::new(), now);

    let expired = waiting_list.clean(now + 5_000);
    assert_eq!(1, expired.len());
    let (callback, error) = &expired[0];
    assert_eq!(ResponseTimeoutError::new(1), *error);
    callback.on_response(timeout_response(error.message_id));
    match callback.responses.borrow().get(0).unwrap() {
        Err(ResponseError::Timeout(e)) => assert_eq!(1, e.message_id),
        _ => panic!("expected a timeout"),
    }
    assert!(!waiting_list.contains(&message_id));
}

#[test]
fn unanswered_request_times_out_exactly_once() {
    let mut waiting_list = WaitingList::new(WaitingListOptions::new(120, 10));
    waiting_list.add(7, TestCallback::new(), 1_000);
    waiting_list.add(8, TestCallback::new(), 1_100);

    assert!(waiting_list.clean(1_120).is_empty());
    let first = waiting_list.clean(1_121);
    assert_eq!(1, first.len());
    assert_eq!(7, first[0].1.message_id);
    assert!(waiting_list.clean(5_000).iter().all(|(_, e)| e.message_id == 8));
    assert!(waiting_list.clean(9_000).is_empty());
    assert!(waiting_list.handle_response(7).is_none());
}

#[test]
fn clock_earlier_than_registration_counts_as_no_time() {
    let mut waiting_list = WaitingList::new(WaitingListOptions::new(0, 10));
    waiting_list.add(1, TestCallback::new(), 5_000);
    assert!(waiting_list.clean(10).is_empty());
    assert!(waiting_list.contains(&1));
}

#[test]
fn re_registering_an_identifier_hands_back_the_displaced_callback() {
    let mut waiting_list: WaitingList<u32> = WaitingList::new(options());
    assert_eq!(None, waiting_list.add(3, 1, 0));
    assert_eq!(Some(1), waiting_list.add(3, 2, 0));
    assert_eq!(Some(2), waiting_list.handle_response(3));
    assert_eq!(None, waiting_list.handle_response(3));
}

#[test]
fn has_expired() {
    let now = 1_700_000_000_000u64;
    let timed_callback = TimedCallback::new(TestCallback::new(), now);

    let future_now = now + 5_000;
    assert!(timed_callback.has_expired(future_now, 2_000));
}

#[test]
fn has_not_expired() {
    let now = 1_700_000_000_000u64;
    let timed_callback = TimedCallback::new(TestCallback::new(), now);

    assert_eq!(false, timed_callback.has_expired(now, 2_000));
    assert_eq!(false, timed_callback.has_expired(now + 2_000, 2_000));
}

#[test]
fn timeout_error_describes_itself() {
    assert_eq!("response timeout for 10", ResponseTimeoutError::new(10).description());
    assert_eq!("response timeout for -9223372036854775808", ResponseTimeoutError::new(i64::MIN).description());
}

#[test]
fn await_on_callback_with_successful_response() {
    let mut response_awaiting_callback = ResponseAwaitingCallback::new();
    assert_eq!(None, response_awaiting_callback.handle().status());
    response_awaiting_callback.on_response(Ok(Message::shutdown_type()));
    assert_eq!(Some(ResponseStatus::Answered), response_awaiting_callback.handle().status());
}

#[test]
fn await_on_callback_with_error_response() {
    let mut response_awaiting_callback = ResponseAwaitingCallback::new();
    response_awaiting_callback.on_response(Err(ResponseError::Timeout(ResponseTimeoutError { message_id: 10 })));
    assert_eq!(Some(ResponseStatus::Unanswered), response_awaiting_callback.handle().status());
}

#[test]
fn generate_message_id() {
    let mut async_network = AsyncNetwork::new();
    let mut message_ids: Vec<MessageId> = (1..100).map(|_| async_network.generate_next_message_id().unwrap()).collect();
    message_ids.sort();

    assert_eq!((1..100).collect::<Vec<MessageId>>(), message_ids);
}

#[test]
fn send_message_with_id_expect_reply() {

    let mut waiting_list = WaitingList::new(options());
    let mut async_network = AsyncNetwork::new();
    let registered = async_network.register_expecting_reply(
        &mut waiting_list,
        Message::ping_type(Node::new(Endpoint::new("localhost".to_string(), 5665))),
        TestCallback::new(),
        0,
    );
    let (message, displaced) = match registered {
        Ok(x) => x,
        Err(_) => panic!("expected a fresh identifier"),
    };
    assert!(displaced.is_none());
    assert!(waiting_list.contains(&1));
    if let Message::Ping { message_id, .. } = message {
        assert_eq!(Some(1), message_id);
    } else {
        panic!("expected a ping");
    }
}

#[test]
fn send_message_with_id_successfully() {

    let mut async_network = AsyncNetwork::new();
    let message = async_network
        .with_message_id(Message::ping_type(Node::new(Endpoint::new("localhost".to_string(), 5665))))
        .unwrap();
    assert!(message.is_ping_type());
    if let Message::Ping { message_id, .. } = message {
        assert_eq!(Some(1), message_id);
    }
}
