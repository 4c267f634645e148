use vstd::prelude::*;

use crate::endpoint::Endpoint;
use crate::message::{
    node_of, source_node_of, source_of, view_sources, Message, MessageId, MessageView, Source,
    SourceView,
};
use crate::id::distance;
use crate::neighbors::{distinct_ids, sorted_by_distance, view_nodes, ClosestNeighbors, NodeView};
use crate::node::Node;
use crate::routing::{added, gather_buckets, replaced, visit_order, Table};
use crate::store::{InMemoryStore, Key};

verus! {

broadcast use vstd::seq_lib::group_to_multiset_ensures;

/// How many neighbors a FindValue or FindNode reply carries.
pub const ALPHA_REPLY: usize = 5;

/// The sources that stand for a sequence of nodes.
pub open spec fn sources_of(nodes: Seq<NodeView>) -> Seq<SourceView> {
    nodes.map_values(|n: NodeView| source_of(n))
}

/// The sources come in ascending XOR distance of their node identifiers
/// from `target`, and no two share an identifier.
pub open spec fn sources_in_order(l: Seq<SourceView>, target: Seq<u8>) -> bool {
    &&& forall|i: int, j: int|
        0 <= i < j < l.len() ==> distance(#[trigger] l[i].1, target) <= distance(#[trigger] l[j].1, target)
    &&& forall|i: int, j: int| 0 <= i < l.len() && 0 <= j < l.len() && i != j ==> l[i].1 != l[j].1
}

proof fn lemma_sources_in_order(m: Seq<NodeView>, target: Seq<u8>)
    requires
        sorted_by_distance(m, target),
        distinct_ids(m),
    ensures
        sources_in_order(sources_of(m), target),
{
    let l = sources_of(m);
    assert forall|i: int, j: int| 0 <= i < j < l.len() implies distance(#[trigger] l[i].1, target)
        <= distance(#[trigger] l[j].1, target) by {
        assert(l[i].1 == m[i].0);
        assert(l[j].1 == m[j].0);
    }
    assert forall|i: int, j: int| 0 <= i < l.len() && 0 <= j < l.len() && i != j implies l[i].1 != l[j].1 by {
        assert(l[i].1 == m[i].0);
        assert(l[j].1 == m[j].0);
    }
}

/// The sources of the nodes gathered, in their order.
pub fn to_sources(neighbors: &ClosestNeighbors) -> (r: Vec<Source>)
    ensures
        view_sources(r@) == sources_of(neighbors.members()),
{
    let nodes = neighbors.all_nodes();
    let mut sources: Vec<Source> = Vec::with_capacity(nodes.len());
    let mut i: usize = 0;
    while i < nodes.len()
        invariant
            i <= nodes@.len(),
            view_nodes(nodes@) == neighbors.members(),
            sources@.len() == i,
            forall|k: int| 0 <= k < i ==> (#[trigger] sources@[k])@ == source_of(nodes@[k]@),
        decreases nodes@.len() - i,
    {
        sources.push(Source::new(&nodes[i]));
        i += 1;
    }
    proof {
        assert(view_sources(sources@) =~= sources_of(neighbors.members()));
    }
    sources
}

/// Stores the key and value of a Store message.
pub struct StoreKeyValueMessageAction;

impl StoreKeyValueMessageAction {
    /// For a Store message, puts its value under its key; other messages
    /// leave the store as it is.
    pub fn act_on(store: &mut InMemoryStore, message: Message)
        requires
            old(store).wf(),
        ensures
            final(store).wf(),
            final(store)@ == match message@ {
                MessageView::Store { key, value, .. } => old(store)@.insert(key, value),
                _ => old(store)@,
            },
    {
        if let Message::Store { key, key_id, value, .. } = message {
            store.put_or_update(Key::new_with_id(key, key_id), value);
        }
    }
}

/// Answers a Ping.
pub struct SendPingReplyMessageAction;

impl SendPingReplyMessageAction {
    /// For a Ping that carries a message identifier: the PingReply of
    /// `current_node` under that identifier, and the endpoint of the node
    /// that pinged, to send it to. Nothing for other messages, and for a
    /// Ping without an identifier, which is dropped.
    pub fn act_on(current_node: &Node, message: Message) -> (r: Option<(Message, Endpoint)>)
        ensures
            match message@ {
                MessageView::Ping { message_id: Some(id), from } => r.is_some() && r.unwrap().0@
                    == (MessageView::PingReply { message_id: id, to: source_of(current_node@) })
                    && r.unwrap().1@ == from.0,
                _ => r.is_none(),
            },
    {
        if let Message::Ping { message_id: Some(id), from } = message {
            let reply = Message::ping_reply_type(current_node.clone(), id);
            return Some((reply, from.endpoint().clone()));
        }
        None
    }
}

/// The reply to a FindValue for identifier `id`: the value when the store
/// holds the key, else the neighbors gathered.
pub open spec fn find_value_reply(id: MessageId, stored: Option<Seq<u8>>, neighbors: Seq<SourceView>) -> MessageView {
    match stored {
        Some(v) => MessageView::FindValueReply { message_id: id, value: Some(v), neighbors: None },
        None => MessageView::FindValueReply {
            message_id: id,
            value: None,
            neighbors: Some(neighbors),
        },
    }
}

/// What a table's scan gathers for `target`, before it is put in order of
/// distance.
pub open spec fn gathered(table: &Table, target: Seq<u8>, n: nat) -> Seq<NodeView> {
    gather_buckets(
        table.buckets_view(),
        visit_order(table.bucket_of(target), table.buckets_view().len() as int),
        n,
    )
}

/// Answers a FindValue.
pub struct FindValueMessageAction;

impl FindValueMessageAction {
    /// For a FindValue that carries a message identifier: the reply to send
    /// and the endpoint of the requester. The reply holds the stored value
    /// of the key when there is one; otherwise the up to `ALPHA_REPLY`
    /// closest neighbors of the key's identifier, nearest first. Nothing for
    /// other messages, for a FindValue without an identifier, and for a key
    /// identifier shorter than the table's own, which the table cannot place.
    pub fn act_on(store: &InMemoryStore, table: &Table, message: &Message) -> (r: Option<(Message, Endpoint)>)
        requires
            store.wf(),
            table.wf(),
        ensures
            match message@ {
                MessageView::FindValue { source, message_id: Some(id), key, key_id } => if table.placeable(key_id) {
                    &&& r.is_some()
                    &&& r.unwrap().1@ == source.0
                    &&& r.unwrap().0@ matches MessageView::FindValueReply { message_id, value, neighbors }
                    &&& message_id == id
                    &&& store@.contains_key(key) ==> value == Some(store@[key]) && neighbors.is_none()
                    &&& !store@.contains_key(key) ==> value.is_none() && neighbors.is_some()
                        && neighbors.unwrap().len() <= ALPHA_REPLY
                        && neighbors.unwrap().to_multiset() == sources_of(gathered(table, key_id, ALPHA_REPLY as nat)).to_multiset()
                        && sources_in_order(neighbors.unwrap(), key_id)
                } else {
                    r.is_none()
                },
                _ => r.is_none(),
            },
    {
        if let Message::FindValue { source, message_id: Some(id), key, key_id } = message {
            if key_id.len() < table.owner_length() {
                return None;
            }
            let reply = match store.get(key) {
                Some(value) => Message::find_value_reply_type(*id, Some(value), None),
                None => {
                    let neighbors = table.closest_neighbors(key_id, ALPHA_REPLY);
                    let sources = to_sources(&neighbors);
                    proof {
                        let m = neighbors.members();
                        let g = gathered(table, key_id@, ALPHA_REPLY as nat);
                        lemma_map_preserves_multiset(m, g);
                        lemma_sources_in_order(m, key_id@);
                    }
                    Message::find_value_reply_type(*id, None, Some(sources))
                },
            };
            return Some((reply, source.endpoint().clone()));
        }
        None
    }
}

/// Mapping two sequences with one multiset through `source_of` gives one
/// multiset.
proof fn lemma_map_preserves_multiset(a: Seq<NodeView>, b: Seq<NodeView>)
    requires
        a.to_multiset() == b.to_multiset(),
    ensures
        sources_of(a).to_multiset() == sources_of(b).to_multiset(),
{
    assert forall|s: SourceView| #[trigger] sources_of(a).to_multiset().count(s) == sources_of(b).to_multiset().count(s) by {
        let n = node_of(s);
        lemma_count_mapped(a, s);
        lemma_count_mapped(b, s);
        assert(a.to_multiset().count(n) == b.to_multiset().count(n));
    }
    assert(sources_of(a).to_multiset() =~= sources_of(b).to_multiset());
}

/// `source_of` is one to one, so a source is counted in the mapped
/// sequence as often as its node is in `a`.
proof fn lemma_count_mapped(a: Seq<NodeView>, s: SourceView)
    ensures
        sources_of(a).to_multiset().count(s) == a.to_multiset().count(node_of(s)),
    decreases a.len(),
{
    if a.len() > 0 {
        let init = a.drop_last();
        lemma_count_mapped(init, s);
        assert(sources_of(a) =~= sources_of(init).push(source_of(a.last())));
        assert(a =~= init.push(a.last()));
        assert((source_of(a.last()) == s) == (a.last() == node_of(s)));
    } else {
        assert(sources_of(a) =~= Seq::<SourceView>::empty());
    }
}

/// Answers a FindNode.
pub struct FindNodeMessageAction;

impl FindNodeMessageAction {
    /// For a FindNode that carries a message identifier: the reply with the
    /// up to `ALPHA_REPLY` closest neighbors of the node identifier asked
    /// for, nearest first, and the endpoint of the requester. Nothing for
    /// other messages, for a FindNode without an identifier, and for an
    /// identifier shorter than the table's own.
    pub fn act_on(table: &Table, message: &Message) -> (r: Option<(Message, Endpoint)>)
        requires
            table.wf(),
        ensures
            match message@ {
                MessageView::FindNode { source, message_id: Some(id), node_id } => if table.placeable(node_id) {
                    &&& r.is_some()
                    &&& r.unwrap().1@ == source.0
                    &&& r.unwrap().0@ matches MessageView::FindNodeReply { message_id, neighbors }
                    &&& message_id == id
                    &&& neighbors.len() <= ALPHA_REPLY
                    &&& neighbors.to_multiset() == sources_of(gathered(table, node_id, ALPHA_REPLY as nat)).to_multiset()
                    &&& sources_in_order(neighbors, node_id)
                } else {
                    r.is_none()
                },
                _ => r.is_none(),
            },
    {
        if let Message::FindNode { source, message_id: Some(id), node_id } = message {
            if node_id.len() < table.owner_length() {
                return None;
            }
            let neighbors = table.closest_neighbors(node_id, ALPHA_REPLY);
            let sources = to_sources(&neighbors);
            proof {
                lemma_map_preserves_multiset(neighbors.members(), gathered(table, node_id@, ALPHA_REPLY as nat));
                lemma_sources_in_order(neighbors.members(), node_id@);
            }
            let reply = Message::find_node_reply_type(*id, sources);
            return Some((reply, source.endpoint().clone()));
        }
        None
    }
}

/// What adding a node leads to.
pub enum AddNodeStep {
    /// Nothing more to do.
    Done,
    /// The node's bucket is full: ping its oldest node, and replace it by
    /// the candidate if no reply comes.
    PingOldest { bucket_index: usize, oldest: Node, candidate: Node },
}

/// Adds the source of an AddNode message to the routing table, evicting an
/// unresponsive incumbent when the bucket is full.
pub struct AddNodeAction;

impl AddNodeAction {
    /// First step: offers the source of an AddNode to the table. When its
    /// bucket is full and holds a node, the caller is to ping that bucket's
    /// oldest node. Other messages, and sources whose identifier the table
    /// cannot place, change nothing.
    pub fn act_on(table: &mut Table, message: Message) -> (r: AddNodeStep)
        requires
            old(table).wf(),
        ensures
            final(table).wf(),
            final(table).owner() == old(table).owner(),
            final(table).capacity() == old(table).capacity(),
            match message@ {
                MessageView::AddNode { source } => if old(table).placeable(source.1) {
                    let b = old(table).bucket_of(source.1);
                    let (after, appended) = added(old(table).buckets_view(), b, old(table).capacity(), node_of(source));
                    &&& final(table).buckets_view() == after
                    &&& match r {
                        AddNodeStep::Done => appended || after[b].len() == 0,
                        AddNodeStep::PingOldest { bucket_index, oldest, candidate } => {
                            &&& !appended
                            &&& bucket_index == b
                            &&& after[b].len() > 0
                            &&& oldest@ == after[b][0]
                            &&& candidate@ == node_of(source)
                        },
                    }
                } else {
                    final(table).buckets_view() == old(table).buckets_view() && r is Done
                },
                _ => final(table).buckets_view() == old(table).buckets_view() && r is Done,
            },
    {
        if let Message::AddNode { source } = message {
            let node = source.to_node();
            if node.id().len() < table.owner_length() {
                return AddNodeStep::Done;
            }
            let candidate = node.clone();
            let (bucket_index, was_added) = table.add(node);
            if was_added {
                return AddNodeStep::Done;
            }
            proof {
                table.lemma_wf();
            }
            return match table.first_node_in(bucket_index) {
                Some(oldest) => AddNodeStep::PingOldest { bucket_index, oldest, candidate },
                None => AddNodeStep::Done,
            };
        }
        AddNodeStep::Done
    }

    /// Second step, once the ping to the oldest node ended: when it got no
    /// reply, the candidate takes the oldest node's place. Nothing changes
    /// when it got one, or when the two nodes do not both belong to bucket
    /// `bucket_index`.
    pub fn on_ping_outcome(table: &mut Table, bucket_index: usize, oldest: &Node, candidate: Node, answered: bool)
        requires
            old(table).wf(),
        ensures
            final(table).wf(),
            final(table).owner() == old(table).owner(),
            final(table).capacity() == old(table).capacity(),
            final(table).buckets_view() == if !answered && old(table).placeable(oldest@.0)
                && old(table).placeable(candidate@.0) && old(table).bucket_of(oldest@.0) == bucket_index
                && old(table).bucket_of(candidate@.0) == bucket_index {
                replaced(old(table).buckets_view(), bucket_index as int, oldest@, candidate@)
            } else {
                old(table).buckets_view()
            },
    {
        if answered {
            return;
        }
        let owner_length = table.owner_length();
        if oldest.id().len() < owner_length || candidate.id().len() < owner_length {
            return;
        }
        if table.bucket_index(oldest.id()) != bucket_index || table.bucket_index(candidate.id()) != bucket_index {
            return;
        }
        table.remove_and_add(bucket_index, oldest, candidate);
    }
}

/// Bridges the transport and the executors.
pub struct AsyncConnectionHandler;

impl AsyncConnectionHandler {
    /// The AddNode that goes to the add-node executor beside a message
    /// read from a connection: one for each request that names the node it
    /// comes from, none for replies and ShutDown.
    pub fn add_node_message_for(message: &Message) -> (r: Option<Message>)
        ensures
            match source_node_of(message@) {
                Some(n) => r.is_some() && r.unwrap()@ == (MessageView::AddNode { source: source_of(n) }),
                None => r.is_none(),
            },
    {
        match message.source() {
            Some(node) => Some(Message::add_node_type(node)),
            None => None,
        }
    }
}

} // verus!
