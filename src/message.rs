use vstd::prelude::*;

use crate::endpoint::Endpoint;
use crate::id::{ripemd160_of, Id};
use crate::node::{Node, NodeId};

verus! {

/// Identifier that pairs a request with its reply.
pub type MessageId = i64;

/// The identifier of a stored key.
pub type KeyId = Id;

/// What a source is: the endpoint's host and port, and the node identifier.
pub type SourceView = ((Seq<char>, u16), Seq<u8>);

/// The wire form of a node: its endpoint and its identifier.
#[derive(Debug)]
pub struct Source {
    node_endpoint: Endpoint,
    node_id: NodeId,
}

impl View for Source {
    type V = SourceView;

    closed spec fn view(&self) -> SourceView {
        (self.node_endpoint@, self.node_id@)
    }
}

/// The source that stands for a node.
pub open spec fn source_of(n: (Seq<u8>, (Seq<char>, u16))) -> SourceView {
    (n.1, n.0)
}

/// The node that a source stands for.
pub open spec fn node_of(s: SourceView) -> (Seq<u8>, (Seq<char>, u16)) {
    (s.1, s.0)
}

impl Source {
    pub fn new(node: &Node) -> (r: Source)
        ensures
            r@ == source_of(node@),
    {
        Source { node_endpoint: node.node_endpoint(), node_id: node.node_id() }
    }

    /// A source made of its parts.
    pub fn from_parts(node_endpoint: Endpoint, node_id: NodeId) -> (r: Source)
        ensures
            r@ == (node_endpoint@, node_id@),
    {
        Source { node_endpoint, node_id }
    }

    /// The node this source stands for.
    pub fn to_node(self) -> (r: Node)
        ensures
            r@ == node_of(self@),
    {
        Node::new_with_id(self.node_endpoint, self.node_id)
    }

    pub fn endpoint(&self) -> (r: &Endpoint)
        ensures
            r@ == self@.0,
    {
        &self.node_endpoint
    }

    pub fn node_id(&self) -> (r: &NodeId)
        ensures
            r@ == self@.1,
    {
        &self.node_id
    }
}

impl Clone for Source {
    fn clone(&self) -> (r: Self)
        ensures
            r@ == self@,
    {
        Source { node_endpoint: self.node_endpoint.clone(), node_id: self.node_id.clone() }
    }
}

/// The views of a sequence of sources.
pub open spec fn view_sources(s: Seq<Source>) -> Seq<SourceView> {
    s.map_values(|x: Source| x@)
}

/// A copy of a list of sources.
pub fn clone_sources(v: &Vec<Source>) -> (r: Vec<Source>)
    ensures
        view_sources(r@) == view_sources(v@),
{
    let mut r: Vec<Source> = Vec::with_capacity(v.len());
    let mut i: usize = 0;
    while i < v.len()
        invariant
            i <= v@.len(),
            r@.len() == i,
            view_sources(r@) =~= view_sources(v@).take(i as int),
        decreases v@.len() - i,
    {
        let c = v[i].clone();
        proof {
            assert(c@ == v@[i as int]@);
        }
        let ghost before = r@;
        r.push(c);
        proof {
            assert forall|k: int| 0 <= k < i + 1 implies view_sources(r@)[k] == view_sources(
                v@,
            ).take(i + 1)[k] by {
                if k < i {
                    assert(r@[k] == before[k]);
                    assert(view_sources(before)[k] == view_sources(v@).take(i as int)[k]);
                }
            }
            assert(view_sources(r@) =~= view_sources(v@).take(i + 1));
        }
        i += 1;
    }
    proof {
        assert(view_sources(v@).take(v@.len() as int) =~= view_sources(v@));
    }
    r
}

/// What a message is.
#[allow(inconsistent_fields)]
pub enum MessageView {
    Store { key: Seq<u8>, key_id: Seq<u8>, value: Seq<u8>, source: SourceView },
    AddNode { source: SourceView },
    FindValue { source: SourceView, message_id: Option<MessageId>, key: Seq<u8>, key_id: Seq<u8> },
    FindValueReply {
        message_id: MessageId,
        value: Option<Seq<u8>>,
        neighbors: Option<Seq<SourceView>>,
    },
    FindNode { source: SourceView, message_id: Option<MessageId>, node_id: Seq<u8> },
    FindNodeReply { message_id: MessageId, neighbors: Seq<SourceView> },
    Ping { message_id: Option<MessageId>, from: SourceView },
    PingReply { message_id: MessageId, to: SourceView },
    ShutDown,
}

/// A message between nodes: requests carry the node they come from,
/// replies the identifier of the request they answer.
#[derive(Debug)]
#[allow(inconsistent_fields)]
pub enum Message {
    Store { key: Vec<u8>, key_id: KeyId, value: Vec<u8>, source: Source },
    AddNode { source: Source },
    FindValue { source: Source, message_id: Option<MessageId>, key: Vec<u8>, key_id: KeyId },
    FindValueReply {
        message_id: MessageId,
        value: Option<Vec<u8>>,
        neighbors: Option<Vec<Source>>,
    },
    FindNode { source: Source, message_id: Option<MessageId>, node_id: NodeId },
    FindNodeReply { message_id: MessageId, neighbors: Vec<Source> },
    Ping { message_id: Option<MessageId>, from: Source },
    PingReply { message_id: MessageId, to: Source },
    ShutDown,
}

/// The view of an optional byte vector.
pub open spec fn view_opt_bytes(v: Option<Vec<u8>>) -> Option<Seq<u8>> {
    match v {
        Some(b) => Some(b@),
        None => None,
    }
}

/// The view of an optional list of sources.
pub open spec fn view_opt_sources(v: Option<Vec<Source>>) -> Option<Seq<SourceView>> {
    match v {
        Some(s) => Some(view_sources(s@)),
        None => None,
    }
}

impl View for Message {
    type V = MessageView;

    open spec fn view(&self) -> MessageView {
        match self {
            Message::Store { key, key_id, value, source } => MessageView::Store {
                key: key@,
                key_id: key_id@,
                value: value@,
                source: source@,
            },
            Message::AddNode { source } => MessageView::AddNode { source: source@ },
            Message::FindValue { source, message_id, key, key_id } => MessageView::FindValue {
                source: source@,
                message_id: *message_id,
                key: key@,
                key_id: key_id@,
            },
            Message::FindValueReply { message_id, value, neighbors } => MessageView::FindValueReply {
                message_id: *message_id,
                value: view_opt_bytes(*value),
                neighbors: view_opt_sources(*neighbors),
            },
            Message::FindNode { source, message_id, node_id } => MessageView::FindNode {
                source: source@,
                message_id: *message_id,
                node_id: node_id@,
            },
            Message::FindNodeReply { message_id, neighbors } => MessageView::FindNodeReply {
                message_id: *message_id,
                neighbors: view_sources(neighbors@),
            },
            Message::Ping { message_id, from } => MessageView::Ping {
                message_id: *message_id,
                from: from@,
            },
            Message::PingReply { message_id, to } => MessageView::PingReply {
                message_id: *message_id,
                to: to@,
            },
            Message::ShutDown => MessageView::ShutDown,
        }
    }
}

/// The message after `set_message_id(id)`: requests that await a reply
/// (FindValue, FindNode, Ping) take the identifier; others stay as they are.
pub open spec fn with_message_id(m: MessageView, id: MessageId) -> MessageView {
    match m {
        MessageView::FindValue { source, message_id, key, key_id } => MessageView::FindValue {
            source,
            message_id: Some(id),
            key,
            key_id,
        },
        MessageView::FindNode { source, message_id, node_id } => MessageView::FindNode {
            source,
            message_id: Some(id),
            node_id,
        },
        MessageView::Ping { message_id, from } => MessageView::Ping { message_id: Some(id), from },
        _ => m,
    }
}

/// The node that a message comes from, for the requests that name one.
pub open spec fn source_node_of(m: MessageView) -> Option<(Seq<u8>, (Seq<char>, u16))> {
    match m {
        MessageView::Store { source, .. } => Some(node_of(source)),
        MessageView::AddNode { source } => Some(node_of(source)),
        MessageView::FindValue { source, .. } => Some(node_of(source)),
        MessageView::FindNode { source, .. } => Some(node_of(source)),
        MessageView::Ping { from, .. } => Some(node_of(from)),
        _ => None,
    }
}

/// The identifier that a reply answers.
pub open spec fn reply_id_of(m: MessageView) -> Option<MessageId> {
    match m {
        MessageView::FindValueReply { message_id, .. } => Some(message_id),
        MessageView::FindNodeReply { message_id, .. } => Some(message_id),
        MessageView::PingReply { message_id, .. } => Some(message_id),
        _ => None,
    }
}

impl Message {
    /// A request to store `value` under `key`, coming from `source`.
    pub fn store_type(key: Vec<u8>, value: Vec<u8>, source: Node) -> (r: Message)
        ensures
            r@ == (MessageView::Store {
                key: key@,
                key_id: ripemd160_of(key@),
                value: value@,
                source: source_of(source@),
            }),
    {
        let key_id = KeyId::generate_from_bytes(key.as_slice());
        let source = Source::new(&source);
        Message::Store { key, key_id, value, source }
    }

    /// A request to add `source` to the routing table.
    pub fn add_node_type(source: Node) -> (r: Message)
        ensures
            r@ == (MessageView::AddNode { source: source_of(source@) }),
    {
        Message::AddNode { source: Source::new(&source) }
    }

    /// A request for the value of `key`, coming from `source`, with no
    /// message identifier yet.
    pub fn find_value_type(source: Node, key: Vec<u8>) -> (r: Message)
        ensures
            r@ == (MessageView::FindValue {
                source: source_of(source@),
                message_id: None,
                key: key@,
                key_id: ripemd160_of(key@),
            }),
    {
        let key_id = KeyId::generate_from_bytes(key.as_slice());
        Message::FindValue { source: Source::new(&source), message_id: None, key, key_id }
    }

    /// The reply to a FindValue: the value, or the closest neighbors known.
    pub fn find_value_reply_type(
        message_id: MessageId,
        value: Option<Vec<u8>>,
        closest_neighbors: Option<Vec<Source>>,
    ) -> (r: Message)
        requires
            value.is_some() || closest_neighbors.is_some(),
        ensures
            r@ == (MessageView::FindValueReply {
                message_id,
                value: view_opt_bytes(value),
                neighbors: view_opt_sources(closest_neighbors),
            }),
    {
        Message::FindValueReply { message_id, value, neighbors: closest_neighbors }
    }

    /// A request for the nodes closest to `source`'s own identifier, coming
    /// from `source`, with no message identifier yet.
    pub fn find_node_type(source: Node) -> (r: Message)
        ensures
            r@ == (MessageView::FindNode {
                source: source_of(source@),
                message_id: None,
                node_id: source@.0,
            }),
    {
        let node_id = source.node_id();
        Message::FindNode { source: Source::new(&source), message_id: None, node_id }
    }

    /// The reply to a FindNode: the closest neighbors known.
    pub fn find_node_reply_type(message_id: MessageId, neighbors: Vec<Source>) -> (r: Message)
        ensures
            r@ == (MessageView::FindNodeReply { message_id, neighbors: view_sources(neighbors@) }),
    {
        Message::FindNodeReply { message_id, neighbors }
    }

    /// A liveness probe from `current_node`, with no message identifier yet.
    pub fn ping_type(current_node: Node) -> (r: Message)
        ensures
            r@ == (MessageView::Ping { message_id: None, from: source_of(current_node@) }),
    {
        Message::Ping { message_id: None, from: Source::new(&current_node) }
    }

    /// The answer of `current_node` to the ping `message_id`.
    pub fn ping_reply_type(current_node: Node, message_id: MessageId) -> (r: Message)
        ensures
            r@ == (MessageView::PingReply { message_id, to: source_of(current_node@) }),
    {
        Message::PingReply { message_id, to: Source::new(&current_node) }
    }

    /// The message that stops an executor.
    pub fn shutdown_type() -> (r: Message)
        ensures
            r@ == MessageView::ShutDown,
    {
        Message::ShutDown
    }

    pub fn is_store_type(&self) -> (r: bool)
        ensures
            r == (self@ is Store),
    {
        matches!(self, Message::Store { .. })
    }

    pub fn is_add_node_type(&self) -> (r: bool)
        ensures
            r == (self@ is AddNode),
    {
        matches!(self, Message::AddNode { .. })
    }

    pub fn is_find_value_type(&self) -> (r: bool)
        ensures
            r == (self@ is FindValue),
    {
        matches!(self, Message::FindValue { .. })
    }

    pub fn is_find_value_reply_type(&self) -> (r: bool)
        ensures
            r == (self@ is FindValueReply),
    {
        matches!(self, Message::FindValueReply { .. })
    }

    pub fn is_find_node_type(&self) -> (r: bool)
        ensures
            r == (self@ is FindNode),
    {
        matches!(self, Message::FindNode { .. })
    }

    pub fn is_find_node_reply_type(&self) -> (r: bool)
        ensures
            r == (self@ is FindNodeReply),
    {
        matches!(self, Message::FindNodeReply { .. })
    }

    pub fn is_ping_type(&self) -> (r: bool)
        ensures
            r == (self@ is Ping),
    {
        matches!(self, Message::Ping { .. })
    }

    pub fn is_ping_reply_type(&self) -> (r: bool)
        ensures
            r == (self@ is PingReply),
    {
        matches!(self, Message::PingReply { .. })
    }

    pub fn is_shutdown_type(&self) -> (r: bool)
        ensures
            r == (self@ is ShutDown),
    {
        matches!(self, Message::ShutDown)
    }

    /// Gives the message identifier `id` to a FindValue, FindNode or Ping;
    /// other messages are left as they are.
    pub fn set_message_id(&mut self, id: MessageId)
        ensures
            final(self)@ == with_message_id(old(self)@, id),
    {
        match self {
            Message::FindValue { message_id, .. } => {
                *message_id = Some(id);
            },
            Message::FindNode { message_id, .. } => {
                *message_id = Some(id);
            },
            Message::Ping { message_id, .. } => {
                *message_id = Some(id);
            },
            _ => {},
        }
    }

    /// The node a request comes from; none for replies and ShutDown.
    pub fn source(&self) -> (r: Option<Node>)
        ensures
            match r {
                Some(n) => source_node_of(self@) == Some(n@),
                None => source_node_of(self@).is_none(),
            },
    {
        match self {
            Message::Store { source, .. } => Some(source.clone().to_node()),
            Message::AddNode { source } => Some(source.clone().to_node()),
            Message::FindValue { source, .. } => Some(source.clone().to_node()),
            Message::FindNode { source, .. } => Some(source.clone().to_node()),
            Message::Ping { from, .. } => Some(from.clone().to_node()),
            _ => None,
        }
    }

    /// The identifier a reply answers; none for requests and ShutDown.
    pub fn reply_id(&self) -> (r: Option<MessageId>)
        ensures
            r == reply_id_of(self@),
    {
        match self {
            Message::FindValueReply { message_id, .. } => Some(*message_id),
            Message::FindNodeReply { message_id, .. } => Some(*message_id),
            Message::PingReply { message_id, .. } => Some(*message_id),
            _ => None,
        }
    }
}

impl Clone for Message {
    fn clone(&self) -> (r: Self)
        ensures
            r@ == self@,
    {
        match self {
            Message::Store { key, key_id, value, source } => Message::Store {
                key: key.clone(),
                key_id: key_id.clone(),
                value: value.clone(),
                source: source.clone(),
            },
            Message::AddNode { source } => Message::AddNode { source: source.clone() },
            Message::FindValue { source, message_id, key, key_id } => Message::FindValue {
                source: source.clone(),
                message_id: *message_id,
                key: key.clone(),
                key_id: key_id.clone(),
            },
            Message::FindValueReply { message_id, value, neighbors } => {
                let value = match value {
                    Some(v) => Some(v.clone()),
                    None => None,
                };
                let neighbors = match neighbors {
                    Some(n) => Some(clone_sources(n)),
                    None => None,
                };
                Message::FindValueReply { message_id: *message_id, value, neighbors }
            },
            Message::FindNode { source, message_id, node_id } => Message::FindNode {
                source: source.clone(),
                message_id: *message_id,
                node_id: node_id.clone(),
            },
            Message::FindNodeReply { message_id, neighbors } => Message::FindNodeReply {
                message_id: *message_id,
                neighbors: clone_sources(neighbors),
            },
            Message::Ping { message_id, from } => Message::Ping {
                message_id: *message_id,
                from: from.clone(),
            },
            Message::PingReply { message_id, to } => Message::PingReply {
                message_id: *message_id,
                to: to.clone(),
            },
            Message::ShutDown => Message::ShutDown,
        }
    }
}

} // verus!
