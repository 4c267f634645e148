use vstd::prelude::*;

use crate::id::{differing_bit_position, Id};
use crate::neighbors::{
    distinct_ids, gather, lemma_gather_shape, sorted_by_distance, view_nodes, ClosestNeighbors,
    NodeView,
};
use crate::node::{Node, NodeId};

verus! {

/// Default number of nodes a bucket holds.
pub const MAX_BUCKET_CAPACITY: usize = 10;

/// Buckets `b`, then `b+1, b-1, b+2, b-2, ...` out to distance `d`, leaving
/// out indices outside `0..total`.
pub open spec fn order_upto(b: int, total: int, d: nat) -> Seq<int>
    decreases d,
{
    if d == 0 {
        seq![b]
    } else {
        let prev = order_upto(b, total, (d - 1) as nat);
        let with_high = if b + d < total {
            prev.push(b + d)
        } else {
            prev
        };
        if b - d >= 0 {
            with_high.push(b - d)
        } else {
            with_high
        }
    }
}

/// The order in which a scan from bucket `b` visits all `total` buckets.
pub open spec fn visit_order(b: int, total: int) -> Seq<int> {
    order_upto(b, total, total as nat)
}

/// The nodes gathered, up to `cap` of them with distinct identifiers, from
/// the buckets `bs` visited in `order`.
pub open spec fn gather_buckets(bs: Seq<Seq<NodeView>>, order: Seq<int>, cap: nat) -> Seq<NodeView>
    decreases order.len(),
{
    if order.len() == 0 {
        Seq::empty()
    } else {
        gather(gather_buckets(bs, order.drop_last(), cap), bs[order.last()], cap)
    }
}

/// The buckets after offering node `n` to bucket `b` of capacity `cap`, and
/// whether it was appended: it is when the bucket lacks it and has room.
pub open spec fn added(bs: Seq<Seq<NodeView>>, b: int, cap: nat, n: NodeView) -> (Seq<Seq<NodeView>>, bool) {
    if bs[b].contains(n) || bs[b].len() >= cap {
        (bs, false)
    } else {
        (bs.update(b, bs[b].push(n)), true)
    }
}

/// The buckets after replacing `to_remove` by `to_add` in bucket `b`: done
/// only when the bucket holds the first and lacks the second.
pub open spec fn replaced(bs: Seq<Seq<NodeView>>, b: int, to_remove: NodeView, to_add: NodeView) -> Seq<Seq<NodeView>> {
    if bs[b].contains(to_remove) && !bs[b].contains(to_add) {
        bs.update(b, bs[b].remove(bs[b].index_of(to_remove)).push(to_add))
    } else {
        bs
    }
}

/// The buckets after taking node `n` out of bucket `b`, if it is there.
pub open spec fn removed(bs: Seq<Seq<NodeView>>, b: int, n: NodeView) -> Seq<Seq<NodeView>> {
    if bs[b].contains(n) {
        bs.update(b, bs[b].remove(bs[b].index_of(n)))
    } else {
        bs
    }
}

/// Some bucket of `bs` holds `n`.
pub open spec fn in_some_bucket(bs: Seq<Seq<NodeView>>, n: NodeView) -> bool {
    exists|i: int| 0 <= i < bs.len() && #[trigger] bs[i].contains(n)
}

proof fn lemma_order_upto(b: int, total: int, d: nat)
    requires
        0 <= b < total,
    ensures
        order_upto(b, total, d).len() == 1 + (if d <= total - 1 - b {
            d as int
        } else {
            total - 1 - b
        }) + (if d <= b {
            d as int
        } else {
            b
        }),
        forall|k: int|
            0 <= k < order_upto(b, total, d).len() ==> 0 <= #[trigger] order_upto(b, total, d)[k]
                < total,
    decreases d,
{
    if d > 0 {
        lemma_order_upto(b, total, (d - 1) as nat);
    }
}

proof fn lemma_order_settles(b: int, total: int, d: nat, e: nat)
    requires
        0 <= b < total,
        d >= b,
        d >= total - 1 - b,
        d <= e,
    ensures
        order_upto(b, total, e) == order_upto(b, total, d),
    decreases e - d,
{
    if e > d {
        lemma_order_settles(b, total, d, (e - 1) as nat);
    }
}

proof fn lemma_gather_of_full(acc: Seq<NodeView>, nodes: Seq<NodeView>, cap: nat)
    requires
        acc.len() >= cap,
    ensures
        gather(acc, nodes, cap) == acc,
    decreases nodes.len(),
{
    if nodes.len() > 0 {
        lemma_gather_of_full(acc, nodes.drop_last(), cap);
    }
}

proof fn lemma_gather_buckets_full_stays(bs: Seq<Seq<NodeView>>, order: Seq<int>, cap: nat, t: int, u: int)
    requires
        0 <= t <= u <= order.len(),
        gather_buckets(bs, order.take(t), cap).len() >= cap,
    ensures
        gather_buckets(bs, order.take(u), cap) == gather_buckets(bs, order.take(t), cap),
    decreases u - t,
{
    if u > t {
        lemma_gather_buckets_full_stays(bs, order, cap, t, u - 1);
        assert(order.take(u).drop_last() =~= order.take(u - 1));
        lemma_gather_of_full(gather_buckets(bs, order.take(u - 1), cap), bs[order[u - 1]], cap);
    }
}

/// What a scan over buckets gathers: at most `cap` nodes with distinct
/// identifiers, each one held by some bucket.
pub proof fn lemma_gather_buckets_shape(bs: Seq<Seq<NodeView>>, order: Seq<int>, cap: nat)
    requires
        forall|k: int| 0 <= k < order.len() ==> 0 <= #[trigger] order[k] < bs.len(),
    ensures
        gather_buckets(bs, order, cap).len() <= cap,
        distinct_ids(gather_buckets(bs, order, cap)),
        forall|i: int|
            0 <= i < gather_buckets(bs, order, cap).len() ==> in_some_bucket(
                bs,
                #[trigger] gather_buckets(bs, order, cap)[i],
            ),
    decreases order.len(),
{
    if order.len() > 0 {
        let prev = order.drop_last();
        lemma_gather_buckets_shape(bs, prev, cap);
        let acc = gather_buckets(bs, prev, cap);
        let nodes = bs[order.last()];
        lemma_gather_shape(acc, nodes, cap);
        let g = gather(acc, nodes, cap);
        assert forall|i: int| 0 <= i < g.len() implies in_some_bucket(bs, #[trigger] g[i]) by {
            if acc.contains(g[i]) {
                let k = choose|k: int| 0 <= k < acc.len() && acc[k] == g[i];
                assert(in_some_bucket(bs, acc[k]));
            } else {
                assert(bs[order.last()].contains(g[i]));
            }
        }
    }
}

/// Adding the same node twice: the second offer appends nothing and leaves
/// the buckets as the first one left them.
pub proof fn lemma_add_twice(bs: Seq<Seq<NodeView>>, b: int, cap: nat, n: NodeView)
    requires
        0 <= b < bs.len(),
    ensures
        added(added(bs, b, cap, n).0, b, cap, n) == (added(bs, b, cap, n).0, false),
{
    let first = added(bs, b, cap, n).0;
    if added(bs, b, cap, n).1 {
        assert(first[b] == bs[b].push(n));
        assert(first[b][bs[b].len() as int] == n);
    }
}

/// With room for one node per bucket, of two distinct nodes offered to an
/// empty bucket the first is appended, the second is not, and the bucket
/// does not hold the second.
pub proof fn lemma_single_slot_bucket(bs: Seq<Seq<NodeView>>, b: int, x: NodeView, y: NodeView)
    requires
        0 <= b < bs.len(),
        bs[b].len() == 0,
        x != y,
    ensures
        added(bs, b, 1, x).1,
        !added(added(bs, b, 1, x).0, b, 1, y).1,
        !added(added(bs, b, 1, x).0, b, 1, y).0[b].contains(y),
{
    let first = added(bs, b, 1, x).0;
    assert(first[b] =~= seq![x]);
}

/// Replacing a node that a bucket holds by one it lacks: afterwards the
/// bucket lacks the first and holds the second.
pub proof fn lemma_replace_present_by_absent(bs: Seq<Seq<NodeView>>, b: int, x: NodeView, y: NodeView)
    requires
        0 <= b < bs.len(),
        bs[b].contains(x),
        !bs[b].contains(y),
        bs[b].no_duplicates(),
    ensures
        !replaced(bs, b, x, y)[b].contains(x),
        replaced(bs, b, x, y)[b].contains(y),
{
    let old_b = bs[b];
    let j = old_b.index_of(x);
    let rest = old_b.remove(j);
    let nb = rest.push(y);
    assert(replaced(bs, b, x, y)[b] == nb);
    assert(nb[rest.len() as int] == y);
    assert forall|k: int| 0 <= k < nb.len() implies nb[k] != x by {
        if k < rest.len() {
            let ok = if k < j { k } else { k + 1 };
            assert(rest[k] == old_b[ok]);
        } else {
            assert(old_b[j] == x);
        }
    }
}

/// The routing table of a node: one bucket for each bit of the owner's
/// identifier. A node goes to the bucket whose index is the differing-bit
/// position of the owner's identifier against the node's; a bucket keeps
/// its nodes oldest first, without repeats, up to its capacity.
pub struct Table {
    buckets: Vec<Vec<Node>>,
    node_id: NodeId,
    max_bucket_capacity: usize,
}

impl Table {
    /// The identifier of the node that owns the table.
    pub closed spec fn owner(&self) -> Seq<u8> {
        self.node_id@
    }

    /// The most nodes a bucket holds.
    pub closed spec fn capacity(&self) -> nat {
        self.max_bucket_capacity as nat
    }

    /// The nodes of each bucket, oldest first.
    pub closed spec fn buckets_view(&self) -> Seq<Seq<NodeView>> {
        self.buckets@.map_values(|b: Vec<Node>| view_nodes(b@))
    }

    /// The bucket index of identifier `id`.
    pub open spec fn bucket_of(&self, id: Seq<u8>) -> int {
        differing_bit_position(self.owner(), id) as int
    }

    /// Whether the table holds node `n`, in its bucket.
    pub open spec fn holds(&self, n: NodeView) -> bool {
        self.buckets_view()[self.bucket_of(n.0)].contains(n)
    }

    /// An identifier that the table can place: one at least as long as the
    /// owner's.
    pub open spec fn placeable(&self, id: Seq<u8>) -> bool {
        self.owner().len() <= id.len()
    }

    /// The table's invariant: one bucket per bit of the owner's identifier,
    /// and each bucket within capacity, free of repeats, and holding only
    /// nodes whose bucket index is its own.
    pub closed spec fn wf(&self) -> bool {
        &&& self.owner().len() > 0
        &&& self.buckets@.len() == 8 * self.owner().len()
        &&& forall|i: int|
            0 <= i < self.buckets@.len() ==> {
                let b = #[trigger] view_nodes(self.buckets@[i]@);
                &&& b.len() <= self.capacity()
                &&& b.no_duplicates()
                &&& forall|k: int|
                    0 <= k < b.len() ==> self.placeable(#[trigger] b[k].0) && self.bucket_of(b[k].0)
                        == i
            }
    }

    /// Facts of the invariant that callers reason with.
    pub proof fn lemma_wf(&self)
        requires
            self.wf(),
        ensures
            self.buckets_view().len() == 8 * self.owner().len(),
            self.owner().len() > 0,
            forall|i: int|
                0 <= i < self.buckets_view().len() ==> (#[trigger] self.buckets_view()[i]).len()
                    <= self.capacity() && self.buckets_view()[i].no_duplicates(),
    {
        assert forall|i: int| 0 <= i < self.buckets_view().len() implies (
        #[trigger] self.buckets_view()[i]).len() <= self.capacity()
            && self.buckets_view()[i].no_duplicates() by {
            assert(self.buckets_view()[i] == view_nodes(self.buckets@[i]@));
        }
    }

    /// An empty table for the owner `node_id`, with buckets of the default
    /// capacity.
    pub fn new(node_id: NodeId) -> (r: Table)
        requires
            node_id@.len() > 0,
        ensures
            r.wf(),
            r.owner() == node_id@,
            r.capacity() == MAX_BUCKET_CAPACITY,
            r.buckets_view().len() == 8 * node_id@.len(),
            forall|i: int| 0 <= i < r.buckets_view().len() ==> (#[trigger] r.buckets_view()[i]).len() == 0,
    {
        Self::new_with_bucket_capacity(node_id, MAX_BUCKET_CAPACITY)
    }

    /// An empty table for the owner `node_id`, with buckets that hold up to
    /// `bucket_capacity` nodes.
    pub fn new_with_bucket_capacity(node_id: NodeId, bucket_capacity: usize) -> (r: Table)
        requires
            node_id@.len() > 0,
        ensures
            r.wf(),
            r.owner() == node_id@,
            r.capacity() == bucket_capacity,
            r.buckets_view().len() == 8 * node_id@.len(),
            forall|i: int| 0 <= i < r.buckets_view().len() ==> (#[trigger] r.buckets_view()[i]).len() == 0,
    {
        let total = node_id.bit_length();
        let mut buckets: Vec<Vec<Node>> = Vec::with_capacity(total);
        let mut i: usize = 0;
        while i < total
            invariant
                i <= total,
                buckets@.len() == i,
                forall|k: int| 0 <= k < i ==> (#[trigger] buckets@[k])@.len() == 0,
            decreases total - i,
        {
            buckets.push(Vec::new());
            i += 1;
        }
        let r = Table { buckets, node_id, max_bucket_capacity: bucket_capacity };
        proof {
            assert forall|k: int| 0 <= k < r.buckets@.len() implies view_nodes(#[trigger] r.buckets@[k]@)
                =~= Seq::<NodeView>::empty() by {}
        }
        r
    }

    /// Number of bytes in the owner's identifier: identifiers shorter than
    /// this cannot be placed.
    pub fn owner_length(&self) -> (r: usize)
        ensures
            r == self.owner().len(),
    {
        self.node_id.len()
    }

    /// The bucket index of identifier `node_id`.
    pub fn bucket_index(&self, node_id: &NodeId) -> (r: usize)
        requires
            self.wf(),
            self.placeable(node_id@),
        ensures
            r == self.bucket_of(node_id@),
            r < self.buckets_view().len(),
    {
        proof {
            self.lemma_wf();
        }
        self.node_id.differing_bit_position(node_id)
    }

    /// The bucket index of `node`, and whether that bucket holds it.
    pub fn contains(&self, node: &Node) -> (r: (usize, bool))
        requires
            self.wf(),
            self.placeable(node@.0),
        ensures
            r.0 == self.bucket_of(node@.0),
            r.0 < self.buckets_view().len(),
            r.1 == self.holds(node@),
    {
        let bucket_index = self.bucket_index(node.id());
        let nodes = &self.buckets[bucket_index];
        let mut i: usize = 0;
        while i < nodes.len()
            invariant
                i <= nodes@.len(),
                bucket_index == self.bucket_of(node@.0),
                bucket_index < self.buckets_view().len(),
                view_nodes(nodes@) == self.buckets_view()[bucket_index as int],
                forall|k: int| 0 <= k < i ==> view_nodes(nodes@)[k] != node@,
            decreases nodes@.len() - i,
        {
            if nodes[i] == *node {
                proof {
                    assert(view_nodes(nodes@)[i as int] == node@);
                }
                return (bucket_index, true);
            }
            i += 1;
        }
        (bucket_index, false)
    }

    /// Offers `node` to its bucket: appended when the bucket lacks it and
    /// has room. Returns the bucket index and whether it was appended.
    pub fn add(&mut self, node: Node) -> (r: (usize, bool))
        requires
            old(self).wf(),
            old(self).placeable(node@.0),
        ensures
            final(self).wf(),
            r.0 == old(self).bucket_of(node@.0),
            r.0 < final(self).buckets_view().len(),
            (final(self).buckets_view(), r.1) == added(
                old(self).buckets_view(),
                r.0 as int,
                old(self).capacity(),
                node@,
            ),
            final(self).owner() == old(self).owner(),
            final(self).capacity() == old(self).capacity(),
    {
        let (bucket_index, contains) = self.contains(&node);
        if !contains {
            let capacity = self.max_bucket_capacity;
            let ghost bs = self.buckets_view();
            proof {
                self.lemma_wf();
            }
            let r = Self::add_internal(capacity, node, bucket_index, &mut self.buckets[bucket_index]);
            proof {
                assert(self.buckets_view() =~= added(bs, bucket_index as int, self.capacity(), node@).0);
                assert forall|i: int| 0 <= i < self.buckets@.len() implies {
                    let b = #[trigger] view_nodes(self.buckets@[i]@);
                    &&& b.len() <= self.capacity()
                    &&& b.no_duplicates()
                    &&& forall|k: int|
                        0 <= k < b.len() ==> self.placeable(#[trigger] b[k].0) && self.bucket_of(
                            b[k].0,
                        ) == i
                } by {
                    assert(view_nodes(self.buckets@[i]@) == self.buckets_view()[i]);
                    assert(bs[i] == view_nodes(old(self).buckets@[i]@));
                }
            }
            return r;
        }
        (bucket_index, false)
    }

    /// Appends `node` to `nodes` when there is room for it.
    fn add_internal(capacity: usize, node: Node, bucket_index: usize, nodes: &mut Vec<Node>) -> (r: (
        usize,
        bool,
    ))
        ensures
            r.0 == bucket_index,
            r.1 == (old(nodes)@.len() < capacity),
            view_nodes(final(nodes)@) == if r.1 {
                view_nodes(old(nodes)@).push(node@)
            } else {
                view_nodes(old(nodes)@)
            },
    {
        if nodes.len() < capacity {
            nodes.push(node);
            proof {
                assert(view_nodes(nodes@) =~= view_nodes(old(nodes)@).push(node@));
            }
            return (bucket_index, true);
        }
        (bucket_index, false)
    }

    /// Takes `node` out of `nodes`, if it is there.
    fn remove_internal(node: &Node, nodes: &mut Vec<Node>) -> (r: bool)
        requires
            view_nodes(old(nodes)@).no_duplicates(),
        ensures
            r == view_nodes(old(nodes)@).contains(node@),
            view_nodes(final(nodes)@) == if r {
                view_nodes(old(nodes)@).remove(view_nodes(old(nodes)@).index_of(node@))
            } else {
                view_nodes(old(nodes)@)
            },
    {
        let ghost v = view_nodes(nodes@);
        let mut i: usize = 0;
        while i < nodes.len()
            invariant
                i <= nodes@.len(),
                nodes@ == old(nodes)@,
                v == view_nodes(nodes@),
                v.no_duplicates(),
                forall|k: int| 0 <= k < i ==> v[k] != node@,
            decreases nodes@.len() - i,
        {
            if nodes[i] == *node {
                proof {
                    assert(v[i as int] == node@);
                    let j = v.index_of(node@);
                    assert(0 <= j < v.len() && v[j] == node@);
                    assert(v.no_duplicates());
                    assert(j == i);
                }
                nodes.remove(i);
                proof {
                    assert(view_nodes(nodes@) =~= v.remove(i as int));
                }
                return true;
            }
            i += 1;
        }
        false
    }

    /// Takes `node` out of its bucket. Returns whether it was there.
    pub fn remove(&mut self, node: &Node) -> (r: bool)
        requires
            old(self).wf(),
            old(self).placeable(node@.0),
        ensures
            final(self).wf(),
            r == old(self).holds(node@),
            final(self).buckets_view() == removed(
                old(self).buckets_view(),
                old(self).bucket_of(node@.0),
                node@,
            ),
            final(self).owner() == old(self).owner(),
            final(self).capacity() == old(self).capacity(),
    {
        let (bucket_index, contains) = self.contains(node);
        if contains {
            let ghost bs = self.buckets_view();
            proof {
                self.lemma_wf();
                assert(view_nodes(self.buckets@[bucket_index as int]@) == bs[bucket_index as int]);
            }
            let r = Self::remove_internal(node, &mut self.buckets[bucket_index]);
            proof {
                assert(self.buckets_view() =~= removed(bs, bucket_index as int, node@));
                old(self).lemma_bucket_remove(bucket_index as int, bs[bucket_index as int].index_of(node@));
                self.lemma_bucket_change_keeps_wf(old(self), bucket_index as int);
            }
            return r;
        }
        false
    }

    /// Under one update of bucket `bucket_index`: when the bucket holds
    /// `to_remove` and lacks `to_add`, takes the first out and appends the
    /// second; otherwise leaves the table as it is.
    pub fn remove_and_add(&mut self, bucket_index: usize, to_remove: &Node, to_add: Node)
        requires
            old(self).wf(),
            old(self).placeable(to_remove@.0),
            old(self).placeable(to_add@.0),
            old(self).bucket_of(to_remove@.0) == bucket_index,
            old(self).bucket_of(to_add@.0) == bucket_index,
        ensures
            final(self).wf(),
            final(self).buckets_view() == replaced(
                old(self).buckets_view(),
                bucket_index as int,
                to_remove@,
                to_add@,
            ),
            final(self).owner() == old(self).owner(),
            final(self).capacity() == old(self).capacity(),
    {
        if self.contains(to_remove).1 && !self.contains(&to_add).1 {
            let ghost bs = self.buckets_view();
            let ghost j = bs[bucket_index as int].index_of(to_remove@);
            proof {
                self.lemma_wf();
                assert(view_nodes(self.buckets@[bucket_index as int]@) == bs[bucket_index as int]);
                self.lemma_bucket_remove(bucket_index as int, j);
            }
            let capacity = self.max_bucket_capacity;
            Self::remove_internal(to_remove, &mut self.buckets[bucket_index]);
            Self::add_internal(capacity, to_add, bucket_index, &mut self.buckets[bucket_index]);
            proof {
                let nb = bs[bucket_index as int].remove(j).push(to_add@);
                assert(self.buckets_view() =~= bs.update(bucket_index as int, nb));
                assert(self.buckets_view()[bucket_index as int] == nb);
                assert(forall|k: int| 0 <= k < bs[bucket_index as int].len() ==> bs[bucket_index as int][k] != to_add@);
                self.lemma_bucket_change_keeps_wf(old(self), bucket_index as int);
            }
        }
    }

    /// The oldest node of bucket `bucket_index`, if it holds any.
    pub fn first_node_in(&self, bucket_index: usize) -> (r: Option<Node>)
        requires
            self.wf(),
            bucket_index < self.buckets_view().len(),
        ensures
            match r {
                Some(n) => self.buckets_view()[bucket_index as int].len() > 0 && n@
                    == self.buckets_view()[bucket_index as int][0],
                None => self.buckets_view()[bucket_index as int].len() == 0,
            },
    {
        let nodes = &self.buckets[bucket_index];
        proof {
            assert(view_nodes(nodes@) == self.buckets_view()[bucket_index as int]);
        }
        if nodes.len() > 0 {
            Some(nodes[0].clone())
        } else {
            None
        }
    }

    /// The bucket indices in the order a scan from `bucket_index` visits
    /// them: `bucket_index`, then one above, one below, two above, two
    /// below, and so on, leaving out indices outside the table.
    pub fn all_adjacent_bucket_indices(&self, bucket_index: usize) -> (r: Vec<usize>)
        requires
            self.wf(),
            bucket_index < self.buckets_view().len(),
        ensures
            r@.map_values(|x: usize| x as int) == visit_order(
                bucket_index as int,
                self.buckets_view().len() as int,
            ),
            forall|k: int| 0 <= k < r@.len() ==> #[trigger] r@[k] < self.buckets_view().len(),
    {
        let total = self.buckets.len();
        let ghost b = bucket_index as int;
        let mut adjacent_indices: Vec<usize> = Vec::new();
        adjacent_indices.push(bucket_index);
        let mut step: usize = 1;
        proof {
            assert(adjacent_indices@.map_values(|x: usize| x as int) =~= order_upto(b, total as int, 0));
            lemma_order_upto(b, total as int, 0);
        }
        while adjacent_indices.len() < total
            invariant
                total == self.buckets_view().len(),
                0 <= b < total,
                b == bucket_index,
                1 <= step <= total + 1,
                adjacent_indices@.map_values(|x: usize| x as int) == order_upto(
                    b,
                    total as int,
                    (step - 1) as nat,
                ),
                forall|k: int| 0 <= k < adjacent_indices@.len() ==> #[trigger] adjacent_indices@[k] < total,
            decreases total - adjacent_indices@.len(),
        {
            proof {
                lemma_order_upto(b, total as int, (step - 1) as nat);
            }
            let ghost before = adjacent_indices@;
            if step < total - bucket_index {
                adjacent_indices.push(bucket_index + step);
            }
            if step <= bucket_index {
                adjacent_indices.push(bucket_index - step);
            }
            proof {
                assert(adjacent_indices@.map_values(|x: usize| x as int) =~= order_upto(
                    b,
                    total as int,
                    step as nat,
                ));
                lemma_order_upto(b, total as int, step as nat);
            }
            step += 1;
        }
        proof {
            lemma_order_upto(b, total as int, (step - 1) as nat);
            lemma_order_settles(b, total as int, (step - 1) as nat, total as nat);
        }
        adjacent_indices
    }

    /// Up to `number_of_neighbors` distinct nodes of the table, gathered by
    /// scanning the buckets outward from the bucket of `id` until enough are
    /// found or every bucket was visited, then put in ascending XOR distance
    /// from `id`.
    pub fn closest_neighbors(&self, id: &Id, number_of_neighbors: usize) -> (r: ClosestNeighbors)
        requires
            self.wf(),
            self.placeable(id@),
        ensures
            r.target_id() == id@,
            r.capacity() == number_of_neighbors,
            r.members().to_multiset() == gather_buckets(
                self.buckets_view(),
                visit_order(self.bucket_of(id@), self.buckets_view().len() as int),
                number_of_neighbors as nat,
            ).to_multiset(),
            r.members().len() <= number_of_neighbors,
            distinct_ids(r.members()),
            sorted_by_distance(r.members(), id@),
            forall|i: int| 0 <= i < r.members().len() ==> in_some_bucket(self.buckets_view(), #[trigger] r.members()[i]),
    {
        let bucket_index = self.bucket_index(id);
        let mut closest_neighbors = ClosestNeighbors::new(number_of_neighbors, id.clone());
        let order = self.all_adjacent_bucket_indices(bucket_index);
        let ghost bs = self.buckets_view();
        let ghost ord = order@.map_values(|x: usize| x as int);
        let ghost cap = number_of_neighbors as nat;
        proof {
            assert(ord.take(0) =~= Seq::<int>::empty());
            assert(ord.take(ord.len() as int) =~= ord);
        }
        let mut k: usize = 0;
        while k < order.len()
            invariant_except_break
                closest_neighbors.members() == gather_buckets(bs, ord.take(k as int), cap),
            invariant
                k <= order@.len(),
                bs == self.buckets_view(),
                ord == order@.map_values(|x: usize| x as int),
                forall|t: int| 0 <= t < order@.len() ==> #[trigger] order@[t] < bs.len(),
                closest_neighbors.target_id() == id@,
                closest_neighbors.capacity() == cap,
                ord.len() == order@.len(),
                ord.take(ord.len() as int) == ord,
            ensures
                closest_neighbors.target_id() == id@,
                closest_neighbors.capacity() == cap,
                closest_neighbors.members() == gather_buckets(bs, ord, cap),
            decreases order@.len() - k,
        {
            let index = order[k];
            let nodes = &self.buckets[index];
            proof {
                assert(view_nodes(nodes@) == bs[index as int]);
                assert(ord.take(k + 1).drop_last() =~= ord.take(k as int));
                assert(ord.take(k + 1).last() == index as int);
            }
            if nodes.len() > 0 {
                let more = closest_neighbors.add_missing(nodes);
                if !more {
                    proof {
                        let acc = gather_buckets(bs, ord.take(k as int), cap);
                        let offered = view_nodes(nodes@);
                        assert(offered.len() > 0);
                        assert(gather(acc, offered, cap) == gather(acc, offered.drop_last(), cap));
                        assert(gather_buckets(bs, ord.take(k + 1), cap) == gather(acc, offered, cap));
                        lemma_gather_buckets_full_stays(bs, ord, cap, k + 1, ord.len() as int);
                    }
                    break;
                }
            }
            k += 1;
        }
        proof {
            assert(ord.take(ord.len() as int) =~= ord);
            lemma_order_upto(bucket_index as int, bs.len() as int, bs.len() as nat);
            lemma_gather_buckets_shape(bs, ord, cap);
        }
        closest_neighbors.sort_ascending_by_distance();
        proof {
            let g = gather_buckets(bs, ord, cap);
            assert forall|i: int| 0 <= i < closest_neighbors.members().len() implies in_some_bucket(
                bs,
                #[trigger] closest_neighbors.members()[i],
            ) by {
                let m = closest_neighbors.members()[i];
                let j = choose|j: int| 0 <= j < g.len() && g[j] == m;
                assert(in_some_bucket(bs, g[j]));
            }
        }
        closest_neighbors
    }

    proof fn lemma_bucket_change_keeps_wf(&self, before: &Table, b: int)
        requires
            before.wf(),
            0 <= b < before.buckets@.len(),
            self.node_id@ == before.node_id@,
            self.max_bucket_capacity == before.max_bucket_capacity,
            self.buckets@.len() == before.buckets@.len(),
            forall|i: int|
                0 <= i < self.buckets@.len() && i != b ==> self.buckets_view()[i]
                    == before.buckets_view()[i],
            self.buckets_view()[b].len() <= self.capacity(),
            self.buckets_view()[b].no_duplicates(),
            forall|k: int|
                0 <= k < self.buckets_view()[b].len() ==> self.placeable(
                    #[trigger] self.buckets_view()[b][k].0,
                ) && self.bucket_of(self.buckets_view()[b][k].0) == b,
        ensures
            self.wf(),
    {
        assert forall|i: int| 0 <= i < self.buckets@.len() implies {
            let bk = #[trigger] view_nodes(self.buckets@[i]@);
            &&& bk.len() <= self.capacity()
            &&& bk.no_duplicates()
            &&& forall|k: int|
                0 <= k < bk.len() ==> self.placeable(#[trigger] bk[k].0) && self.bucket_of(bk[k].0)
                    == i
        } by {
            assert(view_nodes(self.buckets@[i]@) == self.buckets_view()[i]);
            assert(view_nodes(before.buckets@[i]@) == before.buckets_view()[i]);
        }
    }

    proof fn lemma_bucket_remove(&self, b: int, j: int)
        requires
            self.wf(),
            0 <= b < self.buckets_view().len(),
            0 <= j < self.buckets_view()[b].len(),
        ensures
            ({
                let nb = self.buckets_view()[b].remove(j);
                &&& nb.len() < self.capacity()
                &&& nb.no_duplicates()
                &&& forall|k: int|
                    0 <= k < nb.len() ==> self.placeable(#[trigger] nb[k].0) && self.bucket_of(
                        nb[k].0,
                    ) == b
                &&& forall|k: int| 0 <= k < nb.len() ==> #[trigger] nb[k] != self.buckets_view()[b][j]
            }),
    {
        let ob = self.buckets_view()[b];
        assert(ob == view_nodes(self.buckets@[b]@));
        let nb = ob.remove(j);
        assert forall|x: int, y: int| 0 <= x < nb.len() && 0 <= y < nb.len() && x != y implies nb[x]
            != nb[y] by {
            let ox = if x < j { x } else { x + 1 };
            let oy = if y < j { y } else { y + 1 };
            assert(nb[x] == ob[ox]);
            assert(nb[y] == ob[oy]);
        }
        assert forall|k: int| 0 <= k < nb.len() implies self.placeable(#[trigger] nb[k].0)
            && self.bucket_of(nb[k].0) == b && nb[k] != ob[j] by {
            let ok = if k < j { k } else { k + 1 };
            assert(nb[k] == ob[ok]);
        }
    }
}

} // verus!
