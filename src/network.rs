use vstd::prelude::*;

use crate::codec::CodecError;
use crate::message::{with_message_id, Message, MessageId};
use crate::wait::{TimedCallback, WaitingList};

verus! {

/// Why sending a message failed.
#[derive(Debug)]
pub enum NetworkErrorKind {
    /// Connecting or writing failed, with the system's description.
    Io(String),
    /// The message could not be framed.
    SerializationError(CodecError),
}

impl From<CodecError> for NetworkErrorKind {
    fn from(value: CodecError) -> (r: NetworkErrorKind)
        ensures
            r == NetworkErrorKind::SerializationError(value),
    {
        NetworkErrorKind::SerializationError(value)
    }
}

impl vstd::std_specs::convert::FromSpecImpl<CodecError> for NetworkErrorKind {
    open spec fn obeys_from_spec() -> bool {
        true
    }

    open spec fn from_spec(v: CodecError) -> NetworkErrorKind {
        NetworkErrorKind::SerializationError(v)
    }
}

/// The send side of a node: hands out message identifiers, counting up
/// from 1, and registers the callbacks of requests that await a reply.
pub struct AsyncNetwork {
    next_message_id: MessageId,
}

impl AsyncNetwork {
    /// The identifier the next request gets.
    pub closed spec fn next_id(&self) -> MessageId {
        self.next_message_id
    }

    pub fn new() -> (r: AsyncNetwork)
        ensures
            r.next_id() == 1,
    {
        AsyncNetwork { next_message_id: 1 }
    }

    /// A fresh message identifier: each one larger than all handed out
    /// before, so none is used twice. None once every identifier was used.
    pub fn generate_next_message_id(&mut self) -> (r: Option<MessageId>)
        ensures
            old(self).next_id() < MessageId::MAX ==> r == Some(old(self).next_id())
                && final(self).next_id() == old(self).next_id() + 1,
            old(self).next_id() == MessageId::MAX ==> r.is_none() && final(self).next_id()
                == old(self).next_id(),
    {
        if self.next_message_id == MessageId::MAX {
            return None;
        }
        let id = self.next_message_id;
        self.next_message_id = id + 1;
        Some(id)
    }

    /// Gives `message` a fresh identifier before it is sent; None once
    /// every identifier was used.
    pub fn with_message_id(&mut self, message: Message) -> (r: Option<Message>)
        ensures
            old(self).next_id() < MessageId::MAX ==> r.is_some() && r.unwrap()@ == with_message_id(
                message@,
                old(self).next_id(),
            ) && final(self).next_id() == old(self).next_id() + 1,
            old(self).next_id() == MessageId::MAX ==> r.is_none(),
    {
        let mut message = message;
        match self.generate_next_message_id() {
            Some(id) => {
                message.set_message_id(id);
                Some(message)
            },
            None => None,
        }
    }

    /// Gives `message` a fresh identifier and registers `callback` under it
    /// at time `now`, before the message is sent: the reply can then never
    /// come before its callback waits. Returns the message to send, with
    /// the callback that the identifier displaced, if any. When every
    /// identifier was used, hands the callback back unregistered.
    pub fn register_expecting_reply<C>(
        &mut self,
        waiting_list: &mut WaitingList<C>,
        message: Message,
        callback: C,
        now: u64,
    ) -> (r: Result<(Message, Option<C>), C>)
        requires
            old(waiting_list).wf(),
        ensures
            final(waiting_list).wf(),
            final(waiting_list).options() == old(waiting_list).options(),
            old(self).next_id() < MessageId::MAX ==> {
                &&& r is Ok
                &&& r->Ok_0.0@ == with_message_id(message@, old(self).next_id())
                &&& final(waiting_list)@ == old(waiting_list)@.insert(
                    old(self).next_id(),
                    TimedCallback { callback, creation_time: now },
                )
                &&& final(self).next_id() == old(self).next_id() + 1
            },
            old(self).next_id() == MessageId::MAX ==> r == Err::<(Message, Option<C>), C>(callback)
                && final(waiting_list)@ == old(waiting_list)@,
    {
        let mut message = message;
        match self.generate_next_message_id() {
            Some(id) => {
                message.set_message_id(id);
                let displaced = waiting_list.add(id, callback, now);
                Ok((message, displaced))
            },
            None => Err(callback),
        }
    }
}

} // verus!
