use vstd::prelude::*;

use crate::id::{be_less_than, distance, Id};
use crate::node::Node;

verus! {

broadcast use {
    vstd::seq_lib::group_to_multiset_ensures,
    vstd::seq_lib::to_multiset_remove,
    vstd::seq_lib::to_multiset_insert,
};

/// What a node is: its identifier and its endpoint's host and port.
pub type NodeView = (Seq<u8>, (Seq<char>, u16));

/// The views of a sequence of nodes.
pub open spec fn view_nodes(s: Seq<Node>) -> Seq<NodeView> {
    s.map_values(|n: Node| n@)
}

/// Whether some node of `s` has the identifier `id`.
pub open spec fn has_id(s: Seq<NodeView>, id: Seq<u8>) -> bool {
    exists|i: int| 0 <= i < s.len() && s[i].0 == id
}

/// No two nodes of `s` share an identifier.
pub open spec fn distinct_ids(s: Seq<NodeView>) -> bool {
    forall|i: int, j: int| 0 <= i < s.len() && 0 <= j < s.len() && i != j ==> s[i].0 != s[j].0
}

/// The nodes of `s` come in ascending XOR distance from `target`.
pub open spec fn sorted_by_distance(s: Seq<NodeView>, target: Seq<u8>) -> bool {
    forall|i: int, j: int|
        0 <= i < j < s.len() ==> distance(#[trigger] s[i].0, target) <= distance(
            #[trigger] s[j].0,
            target,
        )
}

/// `acc` after offering it each node of `nodes` in turn: a node is appended
/// when `acc` holds fewer than `cap` nodes and none with its identifier.
pub open spec fn gather(acc: Seq<NodeView>, nodes: Seq<NodeView>, cap: nat) -> Seq<NodeView>
    decreases nodes.len(),
{
    if nodes.len() == 0 {
        acc
    } else {
        let g = gather(acc, nodes.drop_last(), cap);
        if g.len() >= cap || has_id(g, nodes.last().0) {
            g
        } else {
            g.push(nodes.last())
        }
    }
}

/// Once `acc` is full, offering more nodes changes nothing.
pub proof fn lemma_gather_full_stays(acc: Seq<NodeView>, nodes: Seq<NodeView>, cap: nat, t: int, u: int)
    requires
        0 <= t <= u <= nodes.len(),
        gather(acc, nodes.take(t), cap).len() >= cap,
    ensures
        gather(acc, nodes.take(u), cap) == gather(acc, nodes.take(t), cap),
    decreases u - t,
{
    if u > t {
        lemma_gather_full_stays(acc, nodes, cap, t, u - 1);
        assert(nodes.take(u).drop_last() =~= nodes.take(u - 1));
    }
}

/// What gathering keeps: at most `cap` nodes, distinct identifiers, each
/// one from `acc` or from `nodes`, and `acc` as a prefix.
pub proof fn lemma_gather_shape(acc: Seq<NodeView>, nodes: Seq<NodeView>, cap: nat)
    requires
        acc.len() <= cap,
        distinct_ids(acc),
    ensures
        gather(acc, nodes, cap).len() <= cap,
        distinct_ids(gather(acc, nodes, cap)),
        gather(acc, nodes, cap).len() >= acc.len(),
        forall|i: int| 0 <= i < acc.len() ==> gather(acc, nodes, cap)[i] == acc[i],
        forall|i: int|
            0 <= i < gather(acc, nodes, cap).len() ==> acc.contains(
                #[trigger] gather(acc, nodes, cap)[i],
            ) || nodes.contains(gather(acc, nodes, cap)[i]),
    decreases nodes.len(),
{
    if nodes.len() > 0 {
        let rest = nodes.drop_last();
        lemma_gather_shape(acc, rest, cap);
        let g = gather(acc, rest, cap);
        assert forall|i: int| 0 <= i < g.len() && nodes.drop_last().contains(g[i]) implies nodes.contains(g[i]) by {
            let k = choose|k: int| 0 <= k < rest.len() && rest[k] == g[i];
            assert(nodes[k] == g[i]);
        }
        if !(g.len() >= cap || has_id(g, nodes.last().0)) {
            let h = g.push(nodes.last());
            assert(nodes[nodes.len() - 1] == nodes.last());
            assert forall|i: int, j: int| 0 <= i < h.len() && 0 <= j < h.len() && i != j implies h[i].0 != h[j].0 by {
                if i < g.len() && j < g.len() {
                } else if i == g.len() {
                    assert(!(g[j].0 == nodes.last().0));
                } else {
                    assert(!(g[i].0 == nodes.last().0));
                }
            }
        }
    }
}

/// A bounded collection of distinct nodes gathered for a target identifier,
/// which can then be put in ascending XOR distance from the target.
pub struct ClosestNeighbors {
    nodes: Vec<Node>,
    target: Id,
    maximum_capacity: usize,
}

impl ClosestNeighbors {
    /// The nodes gathered so far, in their current order.
    pub closed spec fn members(&self) -> Seq<NodeView> {
        view_nodes(self.nodes@)
    }

    /// The identifier that distances are measured from.
    pub closed spec fn target_id(&self) -> Seq<u8> {
        self.target@
    }

    /// The most nodes that the collection takes.
    pub closed spec fn capacity(&self) -> nat {
        self.maximum_capacity as nat
    }

    /// An empty collection for `for_target` that takes up to
    /// `maximum_capacity` nodes.
    pub fn new(maximum_capacity: usize, for_target: Id) -> (r: ClosestNeighbors)
        ensures
            r.members() == Seq::<NodeView>::empty(),
            r.target_id() == for_target@,
            r.capacity() == maximum_capacity,
    {
        let r = ClosestNeighbors { nodes: Vec::new(), target: for_target, maximum_capacity };
        proof {
            assert(r.members() =~= Seq::<NodeView>::empty());
        }
        r
    }

    /// The nodes gathered, in their current order.
    pub fn all_nodes(&self) -> (r: &Vec<Node>)
        ensures
            view_nodes(r@) == self.members(),
    {
        &self.nodes
    }

    /// The identifiers of the nodes gathered, in their current order.
    pub fn node_ids(&self) -> (r: Vec<Id>)
        ensures
            r@.len() == self.members().len(),
            forall|i: int| 0 <= i < r@.len() ==> (#[trigger] r@[i])@ == self.members()[i].0,
    {
        let mut ids: Vec<Id> = Vec::new();
        let mut i: usize = 0;
        while i < self.nodes.len()
            invariant
                i <= self.nodes@.len(),
                ids@.len() == i,
                forall|k: int| 0 <= k < i ==> (#[trigger] ids@[k])@ == self.members()[k].0,
            decreases self.nodes@.len() - i,
        {
            ids.push(self.nodes[i].node_id());
            i += 1;
        }
        ids
    }

    /// Number of nodes gathered.
    pub fn len(&self) -> (r: usize)
        ensures
            r == self.members().len(),
    {
        self.nodes.len()
    }

    fn contains_id(&self, id: &Id) -> (r: bool)
        ensures
            r == has_id(self.members(), id@),
    {
        let mut i: usize = 0;
        while i < self.nodes.len()
            invariant
                i <= self.nodes@.len(),
                forall|k: int| 0 <= k < i ==> self.members()[k].0 != id@,
            decreases self.nodes@.len() - i,
        {
            if self.nodes[i].id() == id {
                proof {
                    assert(self.members()[i as int].0 == id@);
                }
                return true;
            }
            i += 1;
        }
        false
    }

    /// Offers each of `nodes` in turn: a node whose identifier is not
    /// present yet is appended while there is room. Returns false when a
    /// node was met with the collection full, which tells a scan to stop.
    pub fn add_missing(&mut self, nodes: &Vec<Node>) -> (r: bool)
        ensures
            final(self).members() == gather(old(self).members(), view_nodes(nodes@), old(self).capacity()),
            r == (nodes@.len() == 0 || gather(
                old(self).members(),
                view_nodes(nodes@).drop_last(),
                old(self).capacity(),
            ).len() < old(self).capacity()),
            final(self).target_id() == old(self).target_id(),
            final(self).capacity() == old(self).capacity(),
    {
        let ghost acc = self.members();
        let ghost offered = view_nodes(nodes@);
        let ghost cap = self.capacity();
        let mut k: usize = 0;
        while k < nodes.len()
            invariant
                k <= nodes@.len(),
                offered == view_nodes(nodes@),
                cap == self.capacity(),
                self.target_id() == old(self).target_id(),
                self.capacity() == old(self).capacity(),
                acc == old(self).members(),
                self.members() == gather(acc, offered.take(k as int), cap),
                forall|t: int| 0 <= t < k ==> gather(acc, #[trigger] offered.take(t), cap).len() < cap,
            decreases nodes@.len() - k,
        {
            let node = &nodes[k];
            proof {
                assert(offered.take(k + 1).drop_last() =~= offered.take(k as int));
                assert(offered.take(k + 1).last() == node@);
            }
            if self.nodes.len() < self.maximum_capacity {
                if !self.contains_id(node.id()) {
                    let copy = node.clone();
                    self.nodes.push(copy);
                }
                proof {
                    assert(self.members() =~= gather(acc, offered.take(k + 1), cap));
                }
            } else {
                proof {
                    lemma_gather_full_stays(acc, offered, cap, k as int, offered.len() as int);
                    assert(offered.take(offered.len() as int) =~= offered);
                    if k + 1 < nodes@.len() {
                        lemma_gather_full_stays(acc, offered, cap, k as int, offered.len() - 1);
                    }
                    assert(offered.take(offered.len() - 1) =~= offered.drop_last());
                }
                return false;
            }
            k += 1;
        }
        proof {
            assert(offered.take(offered.len() as int) =~= offered);
            if nodes@.len() > 0 {
                assert(offered.take(offered.len() - 1) =~= offered.drop_last());
            }
        }
        true
    }

    /// Puts the nodes in ascending XOR distance from the target.
    pub fn sort_ascending_by_distance(&mut self)
        ensures
            final(self).members().to_multiset() == old(self).members().to_multiset(),
            final(self).members().len() == old(self).members().len(),
            forall|i: int|
                0 <= i < final(self).members().len() ==> old(self).members().contains(
                    #[trigger] final(self).members()[i],
                ),
            sorted_by_distance(final(self).members(), old(self).target_id()),
            distinct_ids(old(self).members()) ==> distinct_ids(final(self).members()),
            final(self).target_id() == old(self).target_id(),
            final(self).capacity() == old(self).capacity(),
    {
        let n = self.nodes.len();
        let ghost target = self.target@;
        let mut i: usize = 1;
        while i < n
            invariant
                n == self.nodes@.len(),
                1 <= i,
                target == self.target@,
                self.target_id() == old(self).target_id(),
                self.capacity() == old(self).capacity(),
                self.members().to_multiset() == old(self).members().to_multiset(),
                self.members().len() == old(self).members().len(),
                distinct_ids(old(self).members()) ==> distinct_ids(self.members()),
                forall|a: int, b: int|
                    0 <= a < b < i && b < n ==> distance(#[trigger] self.members()[a].0, target)
                        <= distance(#[trigger] self.members()[b].0, target),
            decreases n - i,
        {
            let ghost before = self.members();
            let x = self.nodes.remove(i);
            let ghost removed = self.members();
            proof {
                assert(removed =~= before.remove(i as int));
                assert(before[i as int] == x@);
            }
            let dx = x.id().distance_from(&self.target);
            let mut j: usize = 0;
            while j < i && !be_less_than(&dx, &self.nodes[j].id().distance_from(&self.target))
                invariant
                    j <= i,
                    i < n,
                    self.nodes@.len() == n - 1,
                    target == self.target@,
                    removed == self.members(),
                    crate::id::be_value(dx@) == distance(x@.0, target),
                    forall|t: int| 0 <= t < j ==> distance(#[trigger] removed[t].0, target) <= distance(
                        x@.0,
                        target,
                    ),
                decreases i - j,
            {
                j += 1;
            }
            self.nodes.insert(j, x);
            proof {
                let now = self.members();
                assert(now =~= removed.insert(j as int, x@));
                assert(before.to_multiset().remove(x@).insert(x@) =~= before.to_multiset());
                if distinct_ids(old(self).members()) {
                    assert forall|a: int, b: int|
                        0 <= a < now.len() && 0 <= b < now.len() && a != b implies now[a].0 != now[b].0 by {
                        let ia = if a < j { a } else if a == j { i as int } else if a <= i { a - 1 } else { a };
                        let ib = if b < j { b } else if b == j { i as int } else if b <= i { b - 1 } else { b };
                        assert(now[a] == before[ia]);
                        assert(now[b] == before[ib]);
                    }
                }
                assert forall|a: int, b: int|
                    0 <= a < b < i + 1 && b < n implies distance(#[trigger] now[a].0, target)
                        <= distance(#[trigger] now[b].0, target) by {
                    if j < i {
                        assert(distance(x@.0, target) < distance(removed[j as int].0, target));
                    }
                    if a < j && b > j {
                        assert(now[b] == removed[b - 1]);
                        if b - 1 >= j {
                            assert(distance(removed[j as int].0, target) <= distance(removed[b - 1].0, target));
                        }
                    }
                }
            }
            i += 1;
        }
        proof {
            assert forall|k: int| 0 <= k < self.members().len() implies old(self).members().contains(
                #[trigger] self.members()[k],
            ) by {
                assert(self.members().to_multiset().count(self.members()[k]) > 0);
            }
        }
    }
}

} // verus!
