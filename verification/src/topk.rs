//! Selection of the nearest candidates.
use vstd::multiset::Multiset;
use vstd::prelude::*;

use crate::ordered::OrderedFloat;

verus! {

/// A candidate and its distance. Candidates are ordered by distance alone.
#[derive(Debug, Clone, Copy, PartialEq, Eq, Structural)]
pub struct OrderedNode {
    pub id: u64,
    pub dist: OrderedFloat,
}

impl OrderedNode {
    pub fn new(id: u64, dist: OrderedFloat) -> (r: Self)
        ensures
            r.id == id,
            r.dist == dist,
    {
        OrderedNode { id, dist }
    }
}

/// `x` belongs to `m`, and nothing in `m` is farther away.
pub open spec fn is_farthest(m: Multiset<OrderedNode>, x: OrderedNode) -> bool {
    &&& m.contains(x)
    &&& forall|y: OrderedNode| #[trigger] m.contains(y) ==> y.dist.key <= x.dist.key
}

/// `result` is a choice of the `k` nearest among `all`: as many as there are, up to `k`, and
/// none of those left out is nearer than one that was taken.
pub open spec fn is_top_k(
    result: Multiset<OrderedNode>,
    all: Multiset<OrderedNode>,
    k: nat,
) -> bool {
    &&& result.subset_of(all)
    &&& result.len() == if all.len() < k { all.len() } else { k }
    &&& forall|a: OrderedNode, b: OrderedNode|
        #[trigger] result.contains(a) && #[trigger] all.sub(result).contains(b) ==> a.dist.key
            <= b.dist.key
}

/// A binary heap of candidates with the farthest one on top.
#[derive(Debug, Clone)]
pub struct NodeHeap {
    nodes: Vec<OrderedNode>,
}

/// No node lies above its parent, but for the one at `hole`.
spec fn heap_except_up(s: Seq<OrderedNode>, hole: int) -> bool {
    &&& forall|i: int|
        0 < i < s.len() && i != hole ==> (#[trigger] s[i]).dist.key <= s[(i - 1) / 2].dist.key
    &&& forall|i: int|
        0 < i < s.len() && (i - 1) / 2 == hole && hole > 0 ==> (#[trigger] s[i]).dist.key <= s[(hole
            - 1) / 2].dist.key
}

/// No node lies above its parent, but for the children of `hole`.
spec fn heap_except_down(s: Seq<OrderedNode>, hole: int) -> bool {
    &&& forall|i: int|
        0 < i < s.len() && (i - 1) / 2 != hole ==> (#[trigger] s[i]).dist.key <= s[(i - 1)
            / 2].dist.key
    &&& forall|i: int|
        0 < i < s.len() && (i - 1) / 2 == hole && hole > 0 ==> (#[trigger] s[i]).dist.key <= s[(hole
            - 1) / 2].dist.key
}

/// No node lies above its parent.
spec fn heap_ordered(s: Seq<OrderedNode>) -> bool {
    forall|i: int| 0 < i < s.len() ==> (#[trigger] s[i]).dist.key <= s[(i - 1) / 2].dist.key
}

/// Replacing one element of a sequence replaces it in the multiset of its elements.
proof fn lemma_update_multiset<A>(s: Seq<A>, i: int, a: A)
    requires
        0 <= i < s.len(),
    ensures
        s.update(i, a).to_multiset() == s.to_multiset().remove(s[i]).insert(a),
{
    broadcast use vstd::seq_lib::group_to_multiset_ensures;
    broadcast use vstd::multiset::group_multiset_axioms;

    let t = s.update(i, a);
    assert(t.remove(i) =~= s.remove(i));
    assert(t.contains(t[i]) && s.contains(s[i]));
    assert(t.to_multiset().remove(a) == s.to_multiset().remove(s[i]));
    assert(t.to_multiset() =~= s.to_multiset().remove(s[i]).insert(a));
}

/// Exchanging two elements of a sequence keeps the multiset of its elements.
proof fn lemma_swap_multiset<A>(s: Seq<A>, i: int, j: int)
    requires
        0 <= i < s.len(),
        0 <= j < s.len(),
    ensures
        s.update(i, s[j]).update(j, s[i]).to_multiset() == s.to_multiset(),
{
    broadcast use vstd::seq_lib::group_to_multiset_ensures;
    broadcast use vstd::multiset::group_multiset_axioms;

    assert(s.contains(s[i]) && s.contains(s[j]));
    if i == j {
        assert(s.update(i, s[j]).update(j, s[i]) =~= s);
    } else {
        let t = s.update(i, s[j]);
        lemma_update_multiset(s, i, s[j]);
        lemma_update_multiset(t, j, s[i]);
        assert(t[j] == s[j]);
        assert(t.update(j, s[i]).to_multiset() =~= s.to_multiset());
    }
}

/// The root of a heap is the farthest node.
proof fn lemma_root_is_farthest(s: Seq<OrderedNode>, i: int)
    requires
        heap_ordered(s),
        0 <= i < s.len(),
    ensures
        s[i].dist.key <= s[0].dist.key,
    decreases i,
{
    if i > 0 {
        lemma_root_is_farthest(s, (i - 1) / 2);
    }
}

/// The root of a heap is the farthest of the multiset of its nodes.
proof fn lemma_root_of_multiset(s: Seq<OrderedNode>)
    requires
        heap_ordered(s),
        s.len() > 0,
    ensures
        is_farthest(s.to_multiset(), s[0]),
{
    broadcast use vstd::seq_lib::group_to_multiset_ensures;

    assert(s.contains(s[0]));
    assert forall|y: OrderedNode| #[trigger] s.to_multiset().contains(y) implies y.dist.key
        <= s[0].dist.key by {
        assert(s.contains(y));
        let i = choose|i: int| 0 <= i < s.len() && s[i] == y;
        lemma_root_is_farthest(s, i);
    }
}

impl View for NodeHeap {
    type V = Multiset<OrderedNode>;

    closed spec fn view(&self) -> Multiset<OrderedNode> {
        self.nodes@.to_multiset()
    }
}

impl NodeHeap {
    /// The nodes are heap ordered.
    pub closed spec fn wf(&self) -> bool {
        heap_ordered(self.nodes@)
    }

    /// A heap without candidates.
    pub fn new() -> (r: Self)
        ensures
            r.wf(),
            r@ == Multiset::<OrderedNode>::empty(),
    {
        broadcast use vstd::seq_lib::group_to_multiset_ensures;
        broadcast use vstd::multiset::group_multiset_axioms;

        let r = NodeHeap { nodes: Vec::new() };
        assert(r.nodes@.to_multiset().len() == 0);
        assert(r@ =~= Multiset::<OrderedNode>::empty());
        r
    }

    /// The number of candidates held.
    pub fn len(&self) -> (n: usize)
        ensures
            n == self@.len(),
    {
        broadcast use vstd::seq_lib::group_to_multiset_ensures;

        self.nodes.len()
    }

    /// The farthest candidate.
    pub fn peek(&self) -> (r: Option<OrderedNode>)
        requires
            self.wf(),
        ensures
            r is None <==> self@.len() == 0,
            r matches Some(x) ==> is_farthest(self@, x),
    {
        broadcast use vstd::seq_lib::group_to_multiset_ensures;

        if self.nodes.len() == 0 {
            return None;
        }
        proof {
            lemma_root_of_multiset(self.nodes@);
        }
        Some(self.nodes[0])
    }

    /// Adds a candidate.
    pub fn push(&mut self, node: OrderedNode)
        requires
            old(self).wf(),
        ensures
            final(self).wf(),
            final(self)@ == old(self)@.insert(node),
    {
        broadcast use vstd::seq_lib::group_to_multiset_ensures;

        self.nodes.push(node);
        let mut i: usize = self.nodes.len() - 1;
        while i > 0
            invariant
                i < self.nodes@.len(),
                heap_except_up(self.nodes@, i as int),
                self@ == old(self)@.insert(node),
            ensures
                heap_ordered(self.nodes@),
                self@ == old(self)@.insert(node),
            decreases i,
        {
            let parent: usize = (i - 1) / 2;
            let a = self.nodes[i];
            let b = self.nodes[parent];
            if a.dist.key <= b.dist.key {
                break;
            }
            proof {
                lemma_swap_multiset(self.nodes@, i as int, parent as int);
            }
            let ghost before = self.nodes@;
            self.nodes.set(i, b);
            self.nodes.set(parent, a);
            proof {
                assert(self.nodes@ =~= before.update(i as int, b).update(parent as int, a));
            }
            i = parent;
        }
    }

    /// Removes the farthest candidate and hands it out.
    pub fn pop(&mut self) -> (r: Option<OrderedNode>)
        requires
            old(self).wf(),
        ensures
            final(self).wf(),
            r is None <==> old(self)@.len() == 0,
            r is None ==> final(self)@ == old(self)@,
            r matches Some(x) ==> is_farthest(old(self)@, x) && final(self)@ == old(self)@.remove(
                x,
            ),
    {
        broadcast use vstd::seq_lib::group_to_multiset_ensures;
        broadcast use vstd::multiset::group_multiset_axioms;

        if self.nodes.len() == 0 {
            return None;
        }
        proof {
            lemma_root_of_multiset(self.nodes@);
        }
        let top = self.nodes[0];
        let ghost before = self.nodes@;
        let last_pos: usize = self.nodes.len() - 1;
        let last = self.nodes[last_pos];
        self.nodes.set(0, last);
        let _ = self.nodes.pop();
        proof {
            // Moving the last node to the root and dropping its old place takes the root away.
            lemma_swap_multiset(before, 0, last_pos as int);
            let swapped = before.update(0, before[last_pos as int]).update(
                last_pos as int,
                before[0],
            );
            assert(swapped.remove(last_pos as int) =~= self.nodes@);
            assert(self.nodes@.to_multiset() == before.to_multiset().remove(before[0]));
        }
        let n: usize = self.nodes.len();
        let mut i: usize = 0;
        loop
            invariant
                n == self.nodes@.len(),
                heap_except_down(self.nodes@, i as int),
                self@ == before.to_multiset().remove(top),
            ensures
                heap_ordered(self.nodes@),
                self@ == before.to_multiset().remove(top),
            decreases n - i,
        {
            if n < 2 || i > (n - 2) / 2 {
                break;
            }
            let left: usize = 2 * i + 1;
            let child: usize = if left + 1 < n && self.nodes[left + 1].dist.key
                > self.nodes[left].dist.key {
                left + 1
            } else {
                left
            };
            let a = self.nodes[i];
            let b = self.nodes[child];
            if b.dist.key <= a.dist.key {
                break;
            }
            proof {
                lemma_swap_multiset(self.nodes@, i as int, child as int);
            }
            let ghost prev = self.nodes@;
            self.nodes.set(i, b);
            self.nodes.set(child, a);
            proof {
                assert(self.nodes@ =~= prev.update(i as int, b).update(child as int, a));
            }
            i = child;
        }
        Some(top)
    }
}

impl NodeHeap {
    /// The candidates, in no particular order.
    pub fn into_vec(self) -> (r: Vec<OrderedNode>)
        ensures
            r@.to_multiset() == self@,
    {
        self.nodes
    }
}

/// The candidates nearer than `t`.
pub open spec fn below(all: Multiset<OrderedNode>, t: int) -> Multiset<OrderedNode> {
    all.filter(|x: OrderedNode| x.dist.key < t)
}

/// `t` is the distance of the `k`-th nearest candidate.
pub open spec fn is_kth_key(all: Multiset<OrderedNode>, k: nat, t: int) -> bool {
    below(all, t).len() < k <= below(all, t + 1).len()
}

/// The distance of the `k`-th nearest candidate.
pub open spec fn kth_key(all: Multiset<OrderedNode>, k: nat) -> int {
    choose|t: int| is_kth_key(all, k, t)
}

/// A part of a multiset is no larger than the whole.
proof fn lemma_subset_len(a: Multiset<OrderedNode>, b: Multiset<OrderedNode>)
    requires
        a.subset_of(b),
    ensures
        a.len() <= b.len(),
        a.len() == b.len() ==> a == b,
{
    broadcast use vstd::multiset::group_multiset_axioms;

    assert(b.sub(a).len() == b.len() - a.len());
    if a.len() == b.len() {
        assert forall|x: OrderedNode| a.count(x) == b.count(x) by {
            if a.count(x) < b.count(x) {
                assert(b.sub(a).count(x) > 0);
            }
        }
        assert(a =~= b);
    }
}

/// There is one distance only that the `k`-th nearest candidate can have.
proof fn lemma_kth_key_unique(all: Multiset<OrderedNode>, k: nat, t: int)
    requires
        is_kth_key(all, k, t),
    ensures
        kth_key(all, k) == t,
{
    broadcast use vstd::multiset::group_multiset_axioms;

    let u = kth_key(all, k);
    if u < t {
        lemma_subset_len(below(all, u + 1), below(all, t));
    } else if t < u {
        lemma_subset_len(below(all, t + 1), below(all, u));
    }
}

/// The farthest of the `k` nearest candidates has the distance of the `k`-th.
pub proof fn lemma_farthest_is_kth(
    h: Multiset<OrderedNode>,
    all: Multiset<OrderedNode>,
    k: nat,
    x: OrderedNode,
)
    requires
        is_top_k(h, all, k),
        h.len() == k,
        is_farthest(h, x),
    ensures
        kth_key(all, k) == x.dist.key,
{
    broadcast use vstd::multiset::group_multiset_axioms;

    let t = x.dist.key as int;
    assert forall|y: OrderedNode| below(all, t).count(y) <= h.remove(x).count(y) by {
        if y.dist.key < t && all.count(y) > h.count(y) {
            assert(all.sub(h).contains(y));
        }
    }
    lemma_subset_len(below(all, t), h.remove(x));
    assert forall|y: OrderedNode| h.count(y) <= below(all, t + 1).count(y) by {
        if h.count(y) > 0 {
            assert(h.contains(y));
        }
    }
    lemma_subset_len(h, below(all, t + 1));
    lemma_kth_key_unique(all, k, t);
}

/// What one more candidate does to a selection of the `k` nearest.
pub open spec fn pushed(
    before: Multiset<OrderedNode>,
    after: Multiset<OrderedNode>,
    candidate: OrderedNode,
    k: nat,
) -> bool {
    if k == 0 {
        after == before
    } else if before.len() < k {
        after == before.insert(candidate)
    } else {
        exists|x: OrderedNode|
            {
                &&& #[trigger] is_farthest(before, x)
                &&& after == if candidate.dist.key < x.dist.key {
                    before.remove(x).insert(candidate)
                } else {
                    before
                }
            }
    }
}

/// Offering one more candidate keeps a selection of the `k` nearest.
pub proof fn law_pushed_keeps_top_k(
    before: Multiset<OrderedNode>,
    after: Multiset<OrderedNode>,
    candidate: OrderedNode,
    all: Multiset<OrderedNode>,
    k: nat,
)
    requires
        is_top_k(before, all, k),
        pushed(before, after, candidate, k),
    ensures
        is_top_k(after, all.insert(candidate), k),
{
    broadcast use vstd::multiset::group_multiset_axioms;

    let more = all.insert(candidate);
    if k == 0 {
    } else if before.len() < k {
        lemma_subset_len(before, all);
        assert(more.sub(after) =~= Multiset::<OrderedNode>::empty());
    } else {
        let x = choose|x: OrderedNode|
            {
                &&& #[trigger] is_farthest(before, x)
                &&& after == if candidate.dist.key < x.dist.key {
                    before.remove(x).insert(candidate)
                } else {
                    before
                }
            };
        lemma_subset_len(before, all);
        assert forall|a: OrderedNode, b: OrderedNode|
            #[trigger] after.contains(a) && #[trigger] more.sub(after).contains(b) implies a.dist.key
            <= b.dist.key by {
            if candidate.dist.key < x.dist.key {
                assert(b == x || all.sub(before).contains(b));
                assert(a == candidate || before.contains(a));
                assert(before.contains(x));
            } else {
                assert(b == candidate || all.sub(before).contains(b));
            }
        }
    }
}

/// Offers a candidate to a heap that keeps the `k` nearest ones.
pub fn push_topk_result(results: &mut NodeHeap, candidate: OrderedNode, k: usize)
    requires
        old(results).wf(),
    ensures
        final(results).wf(),
        pushed(old(results)@, final(results)@, candidate, k as nat),
{
    if k == 0 {
        return;
    }
    if results.len() < k {
        results.push(candidate);
    } else {
        match results.peek() {
            Some(farthest) => {
                if candidate.dist.key < farthest.dist.key {
                    let _ = results.pop();
                    results.push(candidate);
                }
            },
            None => {},
        }
    }
}

/// `result` comes from offering `rows` in order, one after the other, to a selection of the `k`
/// nearest that is empty at first. A row never displaces one at the same distance.
pub open spec fn offered(result: Multiset<OrderedNode>, rows: Seq<OrderedNode>, k: nat) -> bool
    decreases rows.len(),
{
    if rows.len() == 0 {
        result == Multiset::<OrderedNode>::empty()
    } else {
        exists|before: Multiset<OrderedNode>|
            offered(before, rows.drop_last(), k) && #[trigger] pushed(
                before,
                result,
                rows.last(),
                k,
            )
    }
}

/// Offering one more row continues what was offered before.
pub proof fn lemma_offer_one(
    before: Multiset<OrderedNode>,
    after: Multiset<OrderedNode>,
    rows: Seq<OrderedNode>,
    row: OrderedNode,
    k: nat,
)
    requires
        offered(before, rows, k),
        pushed(before, after, row, k),
    ensures
        offered(after, rows.push(row), k),
{
    let longer = rows.push(row);
    assert(longer.drop_last() =~= rows);
    assert(pushed(before, after, longer.last(), k));
}

/// Nothing is selected where there are no rows, or none is asked for.
pub proof fn lemma_nothing_selected(rows: Seq<OrderedNode>, k: nat)
    requires
        rows.len() == 0 || k == 0,
    ensures
        offered(Multiset::<OrderedNode>::empty(), rows, k),
    decreases rows.len(),
{
    if rows.len() > 0 {
        let none = Multiset::<OrderedNode>::empty();
        lemma_nothing_selected(rows.drop_last(), k);
        assert(pushed(none, none, rows.last(), k));
    }
}

/// Rows that come after others do not ask how the selection out of those came about.
pub proof fn lemma_offered_after(
    result: Multiset<OrderedNode>,
    first: Seq<OrderedNode>,
    second: Seq<OrderedNode>,
    rows: Seq<OrderedNode>,
    k: nat,
)
    requires
        forall|m: Multiset<OrderedNode>| #[trigger] offered(m, first, k) ==> offered(m, second, k),
        offered(result, first + rows, k),
    ensures
        offered(result, second + rows, k),
    decreases rows.len(),
{
    if rows.len() == 0 {
        assert(first + rows =~= first);
        assert(second + rows =~= second);
    } else {
        assert((first + rows).drop_last() =~= first + rows.drop_last());
        assert((second + rows).drop_last() =~= second + rows.drop_last());
        let before = choose|before: Multiset<OrderedNode>|
            offered(before, (first + rows).drop_last(), k) && #[trigger] pushed(
                before,
                result,
                (first + rows).last(),
                k,
            );
        lemma_offered_after(before, first, second, rows.drop_last(), k);
        assert(pushed(before, result, (second + rows).last(), k));
    }
}

/// Rows that were offered in order leave the `k` nearest of them.
pub proof fn law_offered_is_top_k(
    result: Multiset<OrderedNode>,
    rows: Seq<OrderedNode>,
    k: nat,
)
    requires
        offered(result, rows, k),
    ensures
        is_top_k(result, rows.to_multiset(), k),
    decreases rows.len(),
{
    broadcast use vstd::seq_lib::group_to_multiset_ensures;

    if rows.len() == 0 {
        assert(rows =~= Seq::<OrderedNode>::empty());
        assert(rows.to_multiset() =~= Multiset::<OrderedNode>::empty());
        lemma_empty_top_k(k);
    } else {
        let before = choose|before: Multiset<OrderedNode>|
            offered(before, rows.drop_last(), k) && #[trigger] pushed(
                before,
                result,
                rows.last(),
                k,
            );
        law_offered_is_top_k(before, rows.drop_last(), k);
        law_pushed_keeps_top_k(before, result, rows.last(), rows.drop_last().to_multiset(), k);
        vstd::seq_lib::to_multiset_build(rows.drop_last(), rows.last());
        assert(rows.drop_last().push(rows.last()) =~= rows);
    }
}

/// A selection of one is the first of the nearest rows.
pub proof fn law_nearest_is_the_first(result: Multiset<OrderedNode>, rows: Seq<OrderedNode>) -> (i:
    int)
    requires
        offered(result, rows, 1),
        rows.len() > 0,
    ensures
        0 <= i < rows.len(),
        result == Multiset::singleton(rows[i]),
        forall|j: int| 0 <= j < i ==> rows[i].dist.key < (#[trigger] rows[j]).dist.key,
        forall|j: int| i < j < rows.len() ==> rows[i].dist.key <= (#[trigger] rows[j]).dist.key,
    decreases rows.len(),
{
    broadcast use vstd::multiset::group_multiset_axioms;

    let shorter = rows.drop_last();
    let row = rows.last();
    let before = choose|before: Multiset<OrderedNode>|
        offered(before, shorter, 1) && #[trigger] pushed(before, result, row, 1);
    if shorter.len() == 0 {
        assert(result =~= Multiset::singleton(row));
        0
    } else {
        let i = law_nearest_is_the_first(before, shorter);
        assert(before.len() == 1);
        let x = choose|x: OrderedNode|
            {
                &&& #[trigger] is_farthest(before, x)
                &&& result == if row.dist.key < x.dist.key {
                    before.remove(x).insert(row)
                } else {
                    before
                }
            };
        assert(x == rows[i]);
        if row.dist.key < x.dist.key {
            assert(result =~= Multiset::singleton(row));
            assert forall|j: int| 0 <= j < rows.len() - 1 implies row.dist.key < (#[trigger]
            rows[j]).dist.key by {
                assert(shorter[j] == rows[j]);
            }
            rows.len() - 1
        } else {
            assert forall|j: int| i < j < rows.len() implies rows[i].dist.key <= (#[trigger]
            rows[j]).dist.key by {
                if j < rows.len() - 1 {
                    assert(shorter[j] == rows[j]);
                }
            }
            assert forall|j: int| 0 <= j < i implies rows[i].dist.key < (#[trigger]
            rows[j]).dist.key by {
                assert(shorter[j] == rows[j]);
            }
            i
        }
    }
}

/// Row ids paired with their distances, up to the shorter of the two.
pub open spec fn zipped(row_ids: Seq<u64>, dists: Seq<OrderedFloat>) -> Seq<OrderedNode> {
    Seq::new(
        if row_ids.len() < dists.len() { row_ids.len() } else { dists.len() },
        |i: int| OrderedNode { id: row_ids[i], dist: dists[i] },
    )
}

/// The `k` nearest rows.
pub fn topk_from_distances(row_ids: &[u64], distances: &[OrderedFloat], k: usize) -> (r: Vec<
    OrderedNode,
>)
    ensures
        offered(r@.to_multiset(), zipped(row_ids@, distances@), k as nat),
        is_top_k(r@.to_multiset(), zipped(row_ids@, distances@).to_multiset(), k as nat),
{
    let n: usize = if row_ids.len() < distances.len() { row_ids.len() } else { distances.len() };
    let ghost nodes = zipped(row_ids@, distances@);
    let mut results = NodeHeap::new();
    proof {
        lemma_nothing_selected(nodes.take(0), k as nat);
    }
    let mut i: usize = 0;
    while i < n
        invariant
            i <= n,
            n == nodes.len(),
            n <= row_ids@.len(),
            n <= distances@.len(),
            nodes == zipped(row_ids@, distances@),
            results.wf(),
            offered(results@, nodes.take(i as int), k as nat),
        decreases n - i,
    {
        let node = OrderedNode::new(row_ids[i], distances[i]);
        let ghost before = results@;
        push_topk_result(&mut results, node, k);
        proof {
            lemma_offer_one(before, results@, nodes.take(i as int), node, k as nat);
            assert(nodes.take(i + 1) =~= nodes.take(i as int).push(node));
        }
        i = i + 1;
    }
    proof {
        assert(nodes.take(n as int) =~= nodes);
        law_offered_is_top_k(results@, nodes, k as nat);
    }
    results.into_vec()
}

/// Nothing is the selection out of nothing.
proof fn lemma_empty_top_k(k: nat)
    ensures
        is_top_k(Multiset::<OrderedNode>::empty(), Multiset::<OrderedNode>::empty(), k),
{
    broadcast use vstd::multiset::group_multiset_axioms;

}

/// Where there are enough candidates, the `k`-th nearest one has a distance.
proof fn lemma_kth_key_exists(all: Multiset<OrderedNode>, k: nat, t: int)
    requires
        below(all, t).len() < k <= all.len(),
    ensures
        is_kth_key(all, k, kth_key(all, k)),
    decreases 0x8000_0000 - t,
{
    broadcast use vstd::multiset::group_multiset_axioms;

    if t >= 0x8000_0000 {
        assert(below(all, t) =~= all);
    } else if below(all, t + 1).len() >= k {
        assert(is_kth_key(all, k, t));
    } else {
        lemma_kth_key_exists(all, k, t + 1);
    }
}

/// With `k` candidates or more, the `k`-th nearest is found among them.
pub proof fn lemma_kth_key(all: Multiset<OrderedNode>, k: nat)
    requires
        0 < k <= all.len(),
    ensures
        is_kth_key(all, k, kth_key(all, k)),
        -0x8000_0000 <= kth_key(all, k) < 0x8000_0000,
{
    broadcast use vstd::multiset::group_multiset_axioms;

    assert(below(all, -0x8000_0000) =~= Multiset::<OrderedNode>::empty());
    lemma_kth_key_exists(all, k, -0x8000_0000);
    let t = kth_key(all, k);
    if t < -0x8000_0000 {
        assert(below(all, t + 1) =~= Multiset::<OrderedNode>::empty());
    } else if t >= 0x8000_0000 {
        assert(below(all, t) =~= all);
    }
}

/// Offering a row that is no nearer than the `k`-th nearest of the rows before it changes nothing.
pub proof fn law_farther_rows_do_not_matter(
    result: Multiset<OrderedNode>,
    rows: Seq<OrderedNode>,
    farther: Seq<OrderedNode>,
    k: nat,
)
    requires
        offered(result, rows, k),
        0 < k <= rows.len(),
        forall|i: int|
            0 <= i < farther.len() ==> (#[trigger] farther[i]).dist.key >= kth_key(
                rows.to_multiset(),
                k,
            ),
    ensures
        offered(result, rows + farther, k),
    decreases farther.len(),
{
    broadcast use vstd::seq_lib::group_to_multiset_ensures;
    broadcast use vstd::multiset::group_multiset_axioms;

    if farther.len() == 0 {
        assert(rows + farther =~= rows);
    } else {
        let shorter = farther.drop_last();
        law_farther_rows_do_not_matter(result, rows, shorter, k);
        law_offered_is_top_k(result, rows, k);
        let x = lemma_some_farthest(result);
        lemma_farthest_is_kth(result, rows.to_multiset(), k, x);
        assert(farther[farther.len() - 1].dist.key >= x.dist.key);
        assert(pushed(result, result, farther.last(), k));
        lemma_offer_one(result, result, rows + shorter, farther.last(), k);
        assert((rows + shorter).push(farther.last()) =~= rows + farther);
    }
}

/// A selection that is not empty has a farthest member.
proof fn lemma_some_farthest(m: Multiset<OrderedNode>) -> (x: OrderedNode)
    requires
        m.len() > 0,
    ensures
        is_farthest(m, x),
    decreases m.len(),
{
    broadcast use vstd::multiset::group_multiset_axioms;

    let a = m.choose();
    assert(m.contains(a));
    let rest = m.remove(a);
    if rest.len() == 0 {
        assert forall|y: OrderedNode| #[trigger] m.contains(y) implies y.dist.key
            <= a.dist.key by {
            if y != a {
                assert(rest.count(y) > 0);
            }
        }
        a
    } else {
        let b = lemma_some_farthest(rest);
        let x = if b.dist.key > a.dist.key { b } else { a };
        assert forall|y: OrderedNode| #[trigger] m.contains(y) implies y.dist.key
            <= x.dist.key by {
            if y != a {
                assert(rest.contains(y));
            }
        }
        x
    }
}

/// Row ids and distances are paired place by place, as long as there are both.
pub proof fn law_pairs(row_ids: Seq<u64>, dists: Seq<OrderedFloat>, i: int)
    requires
        0 <= i < row_ids.len(),
        i < dists.len(),
    ensures
        i < zipped(row_ids, dists).len(),
        zipped(row_ids, dists).len() == row_ids.len() || zipped(row_ids, dists).len()
            == dists.len(),
        zipped(row_ids, dists).len() <= row_ids.len(),
        zipped(row_ids, dists).len() <= dists.len(),
        zipped(row_ids, dists)[i].id == row_ids[i],
        zipped(row_ids, dists)[i].dist == dists[i],
{
}

/// Rows that were offered leave as many of them as are asked for and there are, none more often than
/// it was offered, and none farther than one that was left out.
pub proof fn law_offered_are_the_nearest(
    result: Multiset<OrderedNode>,
    rows: Seq<OrderedNode>,
    k: nat,
)
    requires
        offered(result, rows, k),
    ensures
        result.len() == if k < rows.len() {
            k
        } else {
            rows.len()
        },
        forall|y: OrderedNode| #[trigger] result.count(y) <= rows.to_multiset().count(y),
        forall|a: OrderedNode, b: OrderedNode|
            #[trigger] result.count(a) > 0 && result.count(b) < #[trigger] rows.to_multiset().count(
                b,
            ) ==> a.dist.key <= b.dist.key,
{
    broadcast use vstd::multiset::group_multiset_axioms;
    broadcast use vstd::seq_lib::group_to_multiset_ensures;

    law_offered_is_top_k(result, rows, k);
    let all = rows.to_multiset();
    assert forall|a: OrderedNode, b: OrderedNode| #[trigger] result.count(a) > 0 && result.count(b)
        < #[trigger] all.count(b) implies a.dist.key <= b.dist.key by {
        assert(result.contains(a));
        assert(all.sub(result).contains(b));
    }
}

/// A choice of the nearest among candidates, in terms of how often each occurs.
pub proof fn law_top_k_in_counts(result: Multiset<OrderedNode>, all: Multiset<OrderedNode>, k: nat)
    ensures
        is_top_k(result, all, k) <==> {
            &&& result.len() == if k < all.len() {
                k
            } else {
                all.len()
            }
            &&& forall|y: OrderedNode| #[trigger] result.count(y) <= all.count(y)
            &&& forall|a: OrderedNode, b: OrderedNode|
                #[trigger] result.count(a) > 0 && result.count(b) < #[trigger] all.count(b)
                    ==> a.dist.key <= b.dist.key
        },
{
    broadcast use vstd::multiset::group_multiset_axioms;

    if is_top_k(result, all, k) {
        assert forall|a: OrderedNode, b: OrderedNode| #[trigger] result.count(a) > 0
            && result.count(b) < #[trigger] all.count(b) implies a.dist.key <= b.dist.key by {
            assert(result.contains(a));
            assert(all.sub(result).contains(b));
        }
    }
}

/// The farthest of a selection is in it, and nothing in it is farther.
pub proof fn law_farthest_in_counts(m: Multiset<OrderedNode>, x: OrderedNode)
    ensures
        is_farthest(m, x) <==> m.count(x) > 0 && forall|y: OrderedNode| #[trigger]
            m.count(y) > 0 ==> y.dist.key <= x.dist.key,
{
    if is_farthest(m, x) {
        assert forall|y: OrderedNode| #[trigger] m.count(y) > 0 implies y.dist.key <= x.dist.key by {
            assert(m.contains(y));
        }
    }
}

/// A row that comes after `k` others at least as near is not taken, so it displaces none of them.
pub proof fn law_later_rows_do_not_displace(
    result: Multiset<OrderedNode>,
    rows: Seq<OrderedNode>,
    row: OrderedNode,
    k: nat,
)
    requires
        offered(result, rows.push(row), k),
        rows.to_multiset().filter(|y: OrderedNode| y.dist.key <= row.dist.key).len() >= k,
    ensures
        offered(result, rows, k),
{
    broadcast use vstd::multiset::group_multiset_axioms;
    broadcast use vstd::seq_lib::group_to_multiset_ensures;

    let longer = rows.push(row);
    assert(longer.drop_last() =~= rows);
    let before = choose|before: Multiset<OrderedNode>|
        offered(before, longer.drop_last(), k) && #[trigger] pushed(
            before,
            result,
            longer.last(),
            k,
        );
    if k > 0 {
        let all = rows.to_multiset();
        let near = all.filter(|y: OrderedNode| y.dist.key <= row.dist.key);
        lemma_subset_len(near, all);
        law_offered_is_top_k(before, rows, k);
        assert(before.len() == k);
        let x = choose|x: OrderedNode|
            {
                &&& #[trigger] is_farthest(before, x)
                &&& result == if row.dist.key < x.dist.key {
                    before.remove(x).insert(row)
                } else {
                    before
                }
            };
        if row.dist.key < x.dist.key {
            assert forall|y: OrderedNode| near.count(y) <= before.remove(x).count(y) by {
                if near.count(y) > 0 && before.count(y) < all.count(y) {
                    assert(before.contains(x));
                    assert(all.sub(before).contains(y));
                }
            }
            lemma_subset_len(near, before.remove(x));
        }
    }
}

/// A row that has fewer than `k` others at least as near before it is taken.
pub proof fn law_nearer_rows_are_taken(
    result: Multiset<OrderedNode>,
    rows: Seq<OrderedNode>,
    row: OrderedNode,
    k: nat,
)
    requires
        offered(result, rows.push(row), k),
        rows.to_multiset().filter(|y: OrderedNode| y.dist.key <= row.dist.key).len() < k,
    ensures
        result.count(row) > 0,
{
    broadcast use vstd::multiset::group_multiset_axioms;
    broadcast use vstd::seq_lib::group_to_multiset_ensures;

    let longer = rows.push(row);
    let all = longer.to_multiset();
    let near = rows.to_multiset().filter(|y: OrderedNode| y.dist.key <= row.dist.key);
    law_offered_are_the_nearest(result, longer, k);
    assert(all =~= rows.to_multiset().insert(row));
    if result.count(row) == 0 {
        assert forall|y: OrderedNode| result.count(y) <= near.count(y) by {
            if result.count(y) > 0 {
                assert(result.count(row) < all.count(row));
                assert(y.dist.key <= row.dist.key);
                assert(y != row);
            }
        }
        lemma_subset_len(result, near);
        lemma_subset_len(near, rows.to_multiset());
    }
}

/// The distance of the `k`-th nearest has fewer than `k` candidates below it, and with those at it
/// there are `k` or more.
pub proof fn law_kth_nearest(all: Multiset<OrderedNode>, k: nat)
    requires
        0 < k <= all.len(),
    ensures
        all.filter(|x: OrderedNode| x.dist.key < kth_key(all, k)).len() < k,
        all.filter(|x: OrderedNode| x.dist.key <= kth_key(all, k)).len() >= k,
{
    broadcast use vstd::multiset::group_multiset_axioms;

    lemma_kth_key(all, k);
    let t = kth_key(all, k);
    assert(all.filter(|x: OrderedNode| x.dist.key < t) =~= below(all, t));
    assert(all.filter(|x: OrderedNode| x.dist.key <= t) =~= below(all, t + 1));
}

/// Only the distance of the `k`-th nearest has fewer than `k` candidates below it and, with those at
/// it, `k` or more.
pub proof fn law_kth_is_unique(all: Multiset<OrderedNode>, k: nat, t: int)
    requires
        all.filter(|x: OrderedNode| x.dist.key < t).len() < k,
        all.filter(|x: OrderedNode| x.dist.key <= t).len() >= k,
    ensures
        kth_key(all, k) == t,
{
    broadcast use vstd::multiset::group_multiset_axioms;

    assert(all.filter(|x: OrderedNode| x.dist.key < t) =~= below(all, t));
    assert(all.filter(|x: OrderedNode| x.dist.key <= t) =~= below(all, t + 1));
    lemma_kth_key_unique(all, k, t);
}

/// What offering one candidate does. Where none is asked for, nothing; where fewer than `k` are
/// selected, it comes in; and else it takes the place of a farthest one, but only where it is nearer
/// than that.
pub proof fn law_offering_one(
    before: Multiset<OrderedNode>,
    after: Multiset<OrderedNode>,
    candidate: OrderedNode,
    k: nat,
) -> (x: OrderedNode)
    requires
        pushed(before, after, candidate, k),
    ensures
        k == 0 ==> after == before,
        0 < k && before.len() < k ==> after == before.insert(candidate),
        0 < k <= before.len() ==> {
            &&& before.count(x) > 0
            &&& forall|y: OrderedNode| #[trigger] before.count(y) > 0 ==> y.dist.key <= x.dist.key
            &&& candidate.dist.key >= x.dist.key ==> after == before
            &&& candidate.dist.key < x.dist.key ==> after == before.remove(x).insert(candidate)
        },
{
    if 0 < k <= before.len() {
        let x = choose|x: OrderedNode|
            {
                &&& #[trigger] is_farthest(before, x)
                &&& after == if candidate.dist.key < x.dist.key {
                    before.remove(x).insert(candidate)
                } else {
                    before
                }
            };
        law_farthest_in_counts(before, x);
        x
    } else {
        candidate
    }
}

/// There are as many pairs as there are of the fewer: row ids or distances.
pub proof fn law_number_of_pairs(row_ids: Seq<u64>, dists: Seq<OrderedFloat>)
    ensures
        zipped(row_ids, dists).len() <= row_ids.len(),
        zipped(row_ids, dists).len() <= dists.len(),
        zipped(row_ids, dists).len() == row_ids.len() || zipped(row_ids, dists).len()
            == dists.len(),
{
}

} // verus!
