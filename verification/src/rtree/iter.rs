//! Intersection queries: a depth-first walk of the tree that leaves out
//! every subtree whose bounding rectangle misses the query.

use vstd::prelude::*;
use crate::rtree::node::chained;
use crate::rtree::node::lemma_node_prunes;
use crate::rtree::node::lemma_node_span;
use crate::rtree::node::node_wf;
use crate::rtree::node::nodes_wf;
use crate::rtree::node::span_hi;
use crate::rtree::node::span_lo;
use crate::rtree::node::tree_wf;
use crate::rtree::node::Node;
use crate::rtree::node::PointsAt;
use crate::rtree::rectangle::value_rects;
use crate::rtree::rectangle::Rectangle;
use crate::rtree::tree::RTree;

verus! {

/// The test a stored entry has to pass to be reported for `query`.
pub open spec fn hits<T>(query: Rectangle) -> spec_fn((Rectangle, T)) -> bool {
    |v: (Rectangle, T)| v.0.intersects(query)
}

/// What a linear scan of `values` finds for `query`: the entries whose
/// rectangle intersects it, each once, in the order in which they are stored.
pub open spec fn linear_scan<T>(values: Seq<(Rectangle, T)>, query: Rectangle) -> Seq<(Rectangle, T)> {
    values.filter(hits(query))
}

/// What a linear scan finds from position `from` on.
pub(crate) open spec fn tail_scan<T>(
    values: Seq<(Rectangle, T)>,
    query: Rectangle,
    from: int,
) -> Seq<(Rectangle, T)> {
    linear_scan(values.subrange(from, values.len() as int), query)
}

/// A scan from `a` reports the entry at `a`, if it passes, and then whatever
/// a scan from `a + 1` reports.
pub(crate) proof fn lemma_tail_step<T>(values: Seq<(Rectangle, T)>, query: Rectangle, a: int)
    requires
        0 <= a < values.len(),
    ensures
        values[a].0.intersects(query) ==> tail_scan(values, query, a) == seq![values[a]]
            + tail_scan(values, query, a + 1),
        !values[a].0.intersects(query) ==> tail_scan(values, query, a) == tail_scan(
            values,
            query,
            a + 1,
        ),
{
    let n = values.len() as int;
    let head = seq![values[a]];
    let rest = values.subrange(a + 1, n);
    let pred = hits::<T>(query);
    assert(values.subrange(a, n) =~= head + rest);
    Seq::filter_distributes_over_add(head, rest, pred);
    assert(head.filter(pred) =~= (if pred(values[a]) {
        head
    } else {
        Seq::empty()
    })) by {
        reveal_with_fuel(Seq::filter, 2);
    }
}

/// A scan may skip a run of entries none of which passes.
pub(crate) proof fn lemma_tail_skip<T>(values: Seq<(Rectangle, T)>, query: Rectangle, a: int, b: int)
    requires
        0 <= a <= b <= values.len(),
        forall|k: int| a <= k < b ==> !(#[trigger] values[k]).0.intersects(query),
    ensures
        tail_scan(values, query, a) == tail_scan(values, query, b),
    decreases b - a,
{
    if a < b {
        lemma_tail_step(values, query, a);
        lemma_tail_skip(values, query, a + 1, b);
    }
}

/// The index of the first stored value that a stack entry has yet to visit.
pub(crate) open spec fn entry_lo(nodes: Seq<Node>, e: Node) -> int {
    if e.leaf == PointsAt::Leaf {
        e.start as int
    } else if e.start < e.stop {
        span_lo(nodes, e.start as int)
    } else {
        span_hi(nodes, e.stop - 1)
    }
}

/// One past the index of the last stored value below a stack entry.
pub(crate) open spec fn entry_hi(nodes: Seq<Node>, e: Node) -> int {
    if e.leaf == PointsAt::Leaf {
        e.stop as int
    } else {
        span_hi(nodes, e.stop - 1)
    }
}

/// A stack entry is a node of the tree whose `start` has moved forward over
/// what has been visited.
pub(crate) open spec fn entry_ok(nodes: Seq<Node>, rects: Seq<Rectangle>, e: Node) -> bool {
    &&& e.start <= e.stop
    &&& e.leaf == PointsAt::Leaf ==> e.stop <= rects.len()
    &&& e.leaf == PointsAt::Inner ==> {
        &&& 0 < e.stop <= nodes.len()
        &&& chained(nodes, e.start as int, e.stop as int)
    }
}

/// The stack is a path from the root down: what is left of each entry
/// begins where the entry above it ends, and the lowest ends with the last
/// stored value.
pub(crate) open spec fn stack_ok(nodes: Seq<Node>, rects: Seq<Rectangle>, stack: Seq<Node>) -> bool {
    &&& forall|k: int| 0 <= k < stack.len() ==> entry_ok(nodes, rects, #[trigger] stack[k])
    &&& forall|k: int|
        0 <= k && k + 1 < stack.len() ==> entry_lo(nodes, #[trigger] stack[k]) == entry_hi(
            nodes,
            stack[k + 1],
        )
    &&& stack.len() > 0 ==> entry_hi(nodes, stack[0]) == rects.len()
}

/// A bound on the steps that visiting node `i` and all below it can take.
pub(crate) open spec fn node_cost(nodes: Seq<Node>, i: int) -> nat
    decreases i + 1, 0int,
{
    if 0 <= i < nodes.len() && nodes[i].leaf == PointsAt::Inner && nodes[i].stop <= i {
        1 + run_cost(nodes, nodes[i].start as int, nodes[i].stop as int)
    } else {
        1
    }
}

/// A bound on the steps that visiting the nodes `lo .. hi` can take.
pub(crate) open spec fn run_cost(nodes: Seq<Node>, lo: int, hi: int) -> nat
    decreases hi, hi - lo,
{
    if 0 <= lo < hi {
        1 + node_cost(nodes, lo) + run_cost(nodes, lo + 1, hi)
    } else {
        0
    }
}

/// A bound on the steps that finishing a stack entry can take.
pub(crate) open spec fn entry_cost(nodes: Seq<Node>, e: Node) -> nat {
    if e.leaf == PointsAt::Inner {
        1 + run_cost(nodes, e.start as int, e.stop as int)
    } else {
        1
    }
}

/// A bound on the steps that emptying the stack can take.
pub(crate) open spec fn stack_cost(nodes: Seq<Node>, stack: Seq<Node>) -> nat
    decreases stack.len(),
{
    if stack.len() == 0 {
        0
    } else {
        entry_cost(nodes, stack.last()) + stack_cost(nodes, stack.drop_last())
    }
}

/// The cost of a stack with one more entry on top.
pub(crate) proof fn lemma_stack_cost_push(nodes: Seq<Node>, stack: Seq<Node>, e: Node)
    ensures
        stack_cost(nodes, stack.push(e)) == entry_cost(nodes, e) + stack_cost(nodes, stack),
{
    assert(stack.push(e).drop_last() =~= stack);
}

/// Returns the value and leaves it raised by one.
fn inc(v: &mut usize) -> (before: usize)
    requires
        *old(v) < usize::MAX,
    ensures
        before == *old(v),
        *final(v) == *old(v) + 1,
{
    let old = *v;
    *v += 1;
    old
}

/// A query under way: the entries of the index that intersect a rectangle,
/// handed out one at a time by [`Iter::next`].
pub struct Iter<'a, T> {
    pub(crate) query: Rectangle,
    pub(crate) tree: &'a RTree<T>,
    pub(crate) to_check: Vec<Node>,
}

impl<'a, T> Iter<'a, T> {
    /// The index is well formed and the work stack is a path in its tree.
    pub closed spec fn wf(&self) -> bool {
        &&& self.tree.wf()
        &&& stack_ok(self.tree.nodes@, value_rects(self.tree.values@), self.to_check@)
    }

    /// The stored entries of the index that is searched.
    pub closed spec fn source(&self) -> Seq<(Rectangle, T)> {
        self.tree@
    }

    /// The rectangle that is searched for.
    pub closed spec fn query(&self) -> Rectangle {
        self.query
    }

    /// The entries still to be handed out, in the order in which they will
    /// come.
    pub closed spec fn remaining(&self) -> Seq<(Rectangle, T)> {
        if self.to_check@.len() == 0 {
            Seq::empty()
        } else {
            tail_scan(
                self.tree.values@,
                self.query,
                entry_lo(self.tree.nodes@, self.to_check@.last()),
            )
        }
    }
}

impl<'a, T> Iter<'a, T> {
    /// Hands out the next entry whose rectangle intersects the query, or
    /// `None` once there is no more.
    pub fn next(&mut self) -> (item: Option<(&'a Rectangle, &'a T)>)
        requires
            old(self).wf(),
        ensures
            final(self).wf(),
            final(self).source() == old(self).source(),
            final(self).query() == old(self).query(),
            match item {
                Some((r, h)) => {
                    &&& old(self).remaining().len() > 0
                    &&& (*r, *h) == old(self).remaining()[0]
                    &&& final(self).remaining() == old(self).remaining().drop_first()
                },
                None => {
                    &&& old(self).remaining().len() == 0
                    &&& final(self).remaining().len() == 0
                },
            },
    {
        let tree: &'a RTree<T> = self.tree;
        let query = self.query;
        let ghost vals = tree.values@;
        let ghost rects = value_rects(vals);
        let ghost nodes = tree.nodes@;
        let ghost total = vals.len() as int;
        let ghost pending = self.remaining();
        proof {
            tree.lemma_unfold();
        }
        loop
            invariant
                self.tree == tree,
                self.query == query,
                tree == old(self).tree,
                query == old(self).query,
                vals == tree.values@,
                nodes == tree.nodes@,
                rects == value_rects(vals),
                total == vals.len(),
                tree_wf(nodes, rects),
                self.wf(),
                self.remaining() == pending,
                pending == old(self).remaining(),
            decreases stack_cost(nodes, self.to_check@),
        {
            let popped = self.to_check.pop();
            let ghost below = self.to_check@;
            match popped {
                None => {
                    return None;
                },
                Some(entry) => {
                    let mut last = entry;
                    if last.leaf == PointsAt::Leaf {
                        let mut ret: Option<(&'a Rectangle, &'a T)> = None;
                        while ret.is_none() && last.start != last.stop
                            invariant
                                vals == tree.values@,
                                total == vals.len(),
                                last.leaf == PointsAt::Leaf,
                                last.stop == entry.stop,
                                entry.start <= last.start <= last.stop <= total,
                                ret is None ==> tail_scan(vals, query, last.start as int)
                                    == pending,
                                ret matches Some((r, h)) ==> {
                                    &&& pending.len() > 0
                                    &&& (*r, *h) == pending[0]
                                    &&& pending.drop_first() == tail_scan(
                                        vals,
                                        query,
                                        last.start as int,
                                    )
                                },
                            decreases last.stop - last.start,
                        {
                            let idx = inc(&mut last.start);
                            proof {
                                lemma_tail_step(vals, query, idx as int);
                            }
                            if tree.values[idx].0.intersects(query) {
                                ret = Some((&tree.values[idx].0, &tree.values[idx].1));
                            }
                        }

                        if last.start != last.stop {
                            self.to_check.push(last);
                        }
                        if ret.is_some() {
                            return ret;
                        }
                    } else {
                        let ghost from = last.start;
                        let mut idx: usize = last.start;
                        let mut found = false;
                        while !found && last.start != last.stop
                            invariant
                                nodes == tree.nodes@,
                                vals == tree.values@,
                                rects == value_rects(vals),
                                total == vals.len(),
                                nodes_wf(nodes, rects, nodes.len() as int),
                                last.leaf == PointsAt::Inner,
                                last.stop == entry.stop,
                                0 < last.stop <= nodes.len(),
                                chained(nodes, from as int, last.stop as int),
                                from <= last.start <= last.stop,
                                !found ==> {
                                    &&& tail_scan(vals, query, entry_lo(nodes, last)) == pending
                                    &&& run_cost(nodes, last.start as int, last.stop as int)
                                        <= run_cost(nodes, from as int, last.stop as int)
                                },
                                found ==> {
                                    &&& idx + 1 == last.start
                                    &&& from <= idx < last.stop
                                    &&& tail_scan(vals, query, span_lo(nodes, idx as int))
                                        == pending
                                    &&& 1 + node_cost(nodes, idx as int) + run_cost(
                                        nodes,
                                        last.start as int,
                                        last.stop as int,
                                    ) <= run_cost(nodes, from as int, last.stop as int)
                                },
                            decreases last.stop - last.start, if found { 0int } else { 1int },
                        {
                            idx = inc(&mut last.start);
                            proof {
                                lemma_node_span(nodes, rects, idx as int);
                            }
                            if tree.nodes[idx].rect.intersects(query) {
                                found = true;
                            } else {
                                proof {
                                    assert forall|k: int|
                                        span_lo(nodes, idx as int) <= k < span_hi(
                                            nodes,
                                            idx as int,
                                        ) implies !(#[trigger] vals[k]).0.intersects(query) by {
                                        lemma_node_prunes(nodes, rects, idx as int, query, k);
                                    }
                                    lemma_tail_skip(
                                        vals,
                                        query,
                                        span_lo(nodes, idx as int),
                                        span_hi(nodes, idx as int),
                                    );
                                }
                            }
                        }

                        if found {
                            let child = tree.nodes[idx];
                            self.to_check.push(last);
                            self.to_check.push(child);
                            proof {
                                lemma_stack_cost_push(nodes, below, last);
                                lemma_stack_cost_push(nodes, below.push(last), child);
                                assert(node_wf(nodes, rects, idx as int));
                                lemma_node_span(nodes, rects, idx as int);
                            }
                        }
                    }
                },
            }
        }
    }
}

impl<'a, T> Iter<'a, T> {
    /// Never more entries are left than the index stores.
    pub proof fn lemma_remaining_bounded(&self)
        requires
            self.wf(),
        ensures
            self.remaining().len() <= self.source().len() <= usize::MAX,
    {
        self.tree.lemma_unfold();
        let vals = self.tree.values@;
        let nodes = self.tree.nodes@;
        let rects = value_rects(vals);
        assert(vals.len() == self.tree.values.len());
        if self.to_check@.len() > 0 {
            let top = self.to_check@.last();
            let from = entry_lo(nodes, top);
            if top.leaf == PointsAt::Inner {
                if top.start < top.stop {
                    lemma_node_span(nodes, rects, top.start as int);
                } else {
                    lemma_node_span(nodes, rects, top.stop - 1);
                }
            }
            vals.subrange(from, vals.len() as int).lemma_filter_len(hits(self.query));
        }
    }

    /// Runs the search to its end and says how many entries it handed out.
    pub fn count(self) -> (n: usize)
        requires
            self.wf(),
        ensures
            n == self.remaining().len(),
    {
        let mut it = self;
        let mut n: usize = 0;
        proof {
            self.lemma_remaining_bounded();
        }
        loop
            invariant
                it.wf(),
                n + it.remaining().len() == self.remaining().len(),
                self.remaining().len() <= usize::MAX,
            ensures
                n == self.remaining().len(),
            decreases it.remaining().len(),
        {
            match it.next() {
                None => {
                    break ;
                },
                Some(_) => {
                    n += 1;
                },
            }
        }
        n
    }
}

impl<T> RTree<T> {
    /// Starts a search for the stored entries whose rectangle intersects
    /// `rect`. The search will hand out exactly what a linear scan of the
    /// store finds: every such entry once, in stored order.
    pub fn query(&self, rect: Rectangle) -> (it: Iter<T>)
        requires
            self.wf(),
        ensures
            it.wf(),
            it.source() == self@,
            it.query() == rect,
            it.remaining() == linear_scan(self@, rect),
    {
        let mut to_check: Vec<Node> = Vec::new();
        proof {
            self.lemma_unfold();
        }
        let ghost vals = self.values@;
        let ghost rects = value_rects(vals);
        let ghost nodes = self.nodes@;
        assert(vals.subrange(0, vals.len() as int) =~= vals);

        if self.nodes.len() >= 1 {
            let last = self.nodes.len() - 1;
            if self.nodes[last].rect.intersects(rect) {
                to_check.push(self.nodes[last]);
                proof {
                    assert(node_wf(nodes, rects, last as int));
                }
            } else {
                proof {
                    assert forall|k: int| 0 <= k < vals.len() implies !(#[trigger] vals[k]).0.intersects(
                        rect,
                    ) by {
                        lemma_node_prunes(nodes, rects, last as int, rect, k);
                    }
                    lemma_tail_skip(vals, rect, 0, vals.len() as int);
                }
            }
        }

        Iter { query: rect, tree: self, to_check: to_check }
    }
}

} // verus!
