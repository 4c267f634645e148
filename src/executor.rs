use vstd::prelude::*;

use crate::message::{Message, MessageId, MessageView};

verus! {

/// How many submissions an executor's queue holds.
pub const EXECUTOR_QUEUE_CAPACITY: usize = 100;

/// What a submitter learns once its message was handled.
#[derive(Debug, PartialEq, Eq, Structural)]
pub enum MessageStatus {
    StoreDone,
    PingDone,
    PingReplyDone,
    FindValueDone,
    FindNodeDone,
    ReplyDone,
    AddNodeDone,
    ShutdownDone,
}

impl MessageStatus {
    pub fn is_store_done(&self) -> (r: bool)
        ensures
            r == (*self == MessageStatus::StoreDone),
    {
        matches!(self, MessageStatus::StoreDone)
    }

    pub fn is_ping_done(&self) -> (r: bool)
        ensures
            r == (*self == MessageStatus::PingDone),
    {
        matches!(self, MessageStatus::PingDone)
    }

    pub fn is_ping_reply_done(&self) -> (r: bool)
        ensures
            r == (*self == MessageStatus::PingReplyDone),
    {
        matches!(self, MessageStatus::PingReplyDone)
    }

    pub fn is_find_value_done(&self) -> (r: bool)
        ensures
            r == (*self == MessageStatus::FindValueDone),
    {
        matches!(self, MessageStatus::FindValueDone)
    }

    pub fn is_find_node_done(&self) -> (r: bool)
        ensures
            r == (*self == MessageStatus::FindNodeDone),
    {
        matches!(self, MessageStatus::FindNodeDone)
    }

    pub fn is_reply_done(&self) -> (r: bool)
        ensures
            r == (*self == MessageStatus::ReplyDone),
    {
        matches!(self, MessageStatus::ReplyDone)
    }

    pub fn is_add_node_done(&self) -> (r: bool)
        ensures
            r == (*self == MessageStatus::AddNodeDone),
    {
        matches!(self, MessageStatus::AddNodeDone)
    }

    pub fn is_shutdown_done(&self) -> (r: bool)
        ensures
            r == (*self == MessageStatus::ShutdownDone),
    {
        matches!(self, MessageStatus::ShutdownDone)
    }
}

/// The handler a message goes to.
#[derive(Debug, PartialEq, Eq, Structural)]
pub enum MessageTypes {
    Store,
    AddNode,
    FindValue,
    FindNode,
    Ping,
    SendPingReply,
    Shutdown,
}

/// What an executor's worker does with one message.
#[derive(Debug, PartialEq, Eq, Structural)]
pub enum Dispatch {
    /// Run the handler, then report the status.
    Act(MessageTypes, MessageStatus),
    /// Hand the reply to the waiting list under its message identifier,
    /// then report `ReplyDone`.
    Deliver(MessageId),
    /// Report `ShutdownDone`, close the queue and stop.
    Stop,
    /// The executor does not take this kind of message: nothing is done
    /// and no status is reported.
    Ignore,
}

/// What the message executor does with a message of this kind.
pub open spec fn message_dispatch(m: MessageView) -> Dispatch {
    match m {
        MessageView::Store { .. } => Dispatch::Act(MessageTypes::Store, MessageStatus::StoreDone),
        MessageView::FindValue { .. } => Dispatch::Act(
            MessageTypes::FindValue,
            MessageStatus::FindValueDone,
        ),
        MessageView::FindNode { .. } => Dispatch::Act(
            MessageTypes::FindNode,
            MessageStatus::FindNodeDone,
        ),
        MessageView::Ping { .. } => Dispatch::Act(MessageTypes::Ping, MessageStatus::PingDone),
        MessageView::PingReply { message_id, .. } => Dispatch::Deliver(message_id),
        MessageView::FindValueReply { message_id, .. } => Dispatch::Deliver(message_id),
        MessageView::FindNodeReply { message_id, .. } => Dispatch::Deliver(message_id),
        MessageView::ShutDown => Dispatch::Stop,
        MessageView::AddNode { .. } => Dispatch::Ignore,
    }
}

/// What the add-node executor does with a message of this kind.
pub open spec fn add_node_dispatch(m: MessageView) -> Dispatch {
    match m {
        MessageView::AddNode { .. } => Dispatch::Act(MessageTypes::AddNode, MessageStatus::AddNodeDone),
        MessageView::ShutDown => Dispatch::Stop,
        _ => Dispatch::Ignore,
    }
}

/// Why a submission was refused.
#[derive(Debug, PartialEq, Eq, Structural)]
pub enum SubmitError {
    /// The executor was shut down: its queue takes nothing more.
    QueueClosed,
}

/// Which of the two executors a worker is.
#[derive(Debug, PartialEq, Eq, Structural, Clone, Copy)]
pub enum ExecutorKind {
    /// Takes Store, Ping, FindValue, FindNode, the replies and ShutDown.
    Message,
    /// Takes AddNode and ShutDown.
    AddNode,
}

/// The state of an executor's single worker: open until it handles a
/// ShutDown, closed for good after.
pub struct ExecutorState {
    kind: ExecutorKind,
    open: bool,
}

/// Whether an executor is open after handling `m`.
pub open spec fn open_after(open: bool, m: MessageView) -> bool {
    open && !(m is ShutDown)
}

/// What a submission to an executor gets: accepted while it is open,
/// refused with `QueueClosed` after.
pub open spec fn admission(open: bool) -> Result<(), SubmitError> {
    if open {
        Ok(())
    } else {
        Err(SubmitError::QueueClosed)
    }
}

impl ExecutorState {
    pub closed spec fn kind(&self) -> ExecutorKind {
        self.kind
    }

    pub closed spec fn is_open(&self) -> bool {
        self.open
    }

    /// A new, open executor of the given kind.
    pub fn new(kind: ExecutorKind) -> (r: ExecutorState)
        ensures
            r.kind() == kind,
            r.is_open(),
    {
        ExecutorState { kind, open: true }
    }

    /// Whether a submission is taken now.
    pub fn accept_submission(&self) -> (r: Result<(), SubmitError>)
        ensures
            r == admission(self.is_open()),
    {
        if self.open {
            Ok(())
        } else {
            Err(SubmitError::QueueClosed)
        }
    }

    /// Decides what the worker does with the next message of its queue; a
    /// ShutDown closes the executor.
    pub fn dispatch(&mut self, message: &Message) -> (r: Dispatch)
        ensures
            r == (match old(self).kind() {
                ExecutorKind::Message => message_dispatch(message@),
                ExecutorKind::AddNode => add_node_dispatch(message@),
            }),
            final(self).kind() == old(self).kind(),
            final(self).is_open() == open_after(old(self).is_open(), message@),
    {
        if message.is_shutdown_type() {
            self.open = false;
            return Dispatch::Stop;
        }
        match self.kind {
            ExecutorKind::Message => match message {
                Message::Store { .. } => Dispatch::Act(MessageTypes::Store, MessageStatus::StoreDone),
                Message::FindValue { .. } => Dispatch::Act(
                    MessageTypes::FindValue,
                    MessageStatus::FindValueDone,
                ),
                Message::FindNode { .. } => Dispatch::Act(
                    MessageTypes::FindNode,
                    MessageStatus::FindNodeDone,
                ),
                Message::Ping { .. } => Dispatch::Act(MessageTypes::Ping, MessageStatus::PingDone),
                Message::PingReply { message_id, .. } => Dispatch::Deliver(*message_id),
                Message::FindValueReply { message_id, .. } => Dispatch::Deliver(*message_id),
                Message::FindNodeReply { message_id, .. } => Dispatch::Deliver(*message_id),
                _ => Dispatch::Ignore,
            },
            ExecutorKind::AddNode => match message {
                Message::AddNode { .. } => Dispatch::Act(
                    MessageTypes::AddNode,
                    MessageStatus::AddNodeDone,
                ),
                _ => Dispatch::Ignore,
            },
        }
    }
}

/// After an executor handled a ShutDown, every submission is refused with
/// `QueueClosed`, whatever came before and whatever follows.
pub proof fn lemma_submit_after_shutdown_is_refused(open: bool, later: Seq<MessageView>)
    ensures
        admission(open_after(open, MessageView::ShutDown)) == Err::<(), SubmitError>(
            SubmitError::QueueClosed,
        ),
        admission(
            later.fold_left(open_after(open, MessageView::ShutDown), |o: bool, m: MessageView| open_after(o, m)),
        ) == Err::<(), SubmitError>(SubmitError::QueueClosed),
    decreases later.len(),
{
    if later.len() > 0 {
        lemma_submit_after_shutdown_is_refused(open, later.drop_last());
    }
}

} // verus!
