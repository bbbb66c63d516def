//! The index itself: a store of rectangles with handles, and the tree that
//! is rebuilt over it after every batch of insertions.

use vstd::prelude::*;
use crate::rtree::node::lemma_push_keeps_span;
use crate::rtree::node::lemma_push_keeps_wf;
use crate::rtree::node::above;
use crate::rtree::node::above_len;
use crate::rtree::node::node_planned;
use crate::rtree::node::node_rects;
use crate::rtree::node::nodes_planned;
use crate::rtree::node::planned;
use crate::rtree::node::planned_len;
use crate::rtree::node::runs;
use crate::rtree::node::nodes_wf;
use crate::rtree::node::span_hi;
use crate::rtree::node::span_lo;
use crate::rtree::node::chained;
use crate::rtree::node::tree_wf;
use crate::rtree::node::Node;
use crate::rtree::node::PointsAt;
use crate::rtree::node::FANOUT_SIZE;
use crate::rtree::rectangle::bounding;
use crate::rtree::rectangle::center_key;
use crate::rtree::rectangle::lemma_bounding_agree;
use crate::rtree::rectangle::value_rects;
use crate::rtree::rectangle::Rectangle;

verus! {

/// The entries are in ascending order of the sort keys of their rectangles.
pub open spec fn sorted_by_center<T>(s: Seq<(Rectangle, T)>) -> bool {
    forall|i: int, j: int|
        0 <= i <= j < s.len() ==> (#[trigger] s[i]).0.center_key() <= (#[trigger] s[j]).0.center_key()
}

/// The entries of `s` whose rectangle has the sort key `key`, in the order
/// in which they stand in `s`.
pub open spec fn with_center<T>(s: Seq<(Rectangle, T)>, key: u32) -> Seq<(Rectangle, T)> {
    s.filter(|v: (Rectangle, T)| v.0.center_key() == key)
}

/// `after` is `before` sorted by the sort keys of the rectangles, with
/// entries of equal key left in the order they had.
pub open spec fn stable_sort_of<T>(after: Seq<(Rectangle, T)>, before: Seq<(Rectangle, T)>) -> bool {
    &&& after.len() == before.len()
    &&& after.to_multiset() == before.to_multiset()
    &&& sorted_by_center(after)
    &&& forall|key: u32| #[trigger] with_center(after, key) == with_center(before, key)
}

/// Two sorted sequences of the same length that agree, key by key, on the
/// entries with that key and on their order, are the same sequence.
pub proof fn lemma_sorted_runs_decide<T>(s: Seq<(Rectangle, T)>, t: Seq<(Rectangle, T)>)
    requires
        s.len() == t.len(),
        sorted_by_center(s),
        sorted_by_center(t),
        forall|key: u32| #[trigger] with_center(t, key) == with_center(s, key),
    ensures
        t == s,
    decreases s.len(),
{
    if s.len() == 0 {
        assert(t =~= s);
    } else {
        let ks = s.last().0.center_key();
        let kt = t.last().0.center_key();
        let ps = |v: (Rectangle, T)| v.0.center_key() == ks;
        let pt = |v: (Rectangle, T)| v.0.center_key() == kt;
        assert(ks <= kt) by {
            s.lemma_filter_contains(ps, s.len() - 1);
            assert(with_center(t, ks) == with_center(s, ks));
            t.lemma_filter_contains_rev(ps, s.last());
            let j = choose|j: int| 0 <= j < t.len() && t[j] == s.last();
            assert(t[j].0.center_key() <= t[t.len() - 1].0.center_key());
        }
        assert(kt <= ks) by {
            t.lemma_filter_contains(pt, t.len() - 1);
            assert(with_center(t, kt) == with_center(s, kt));
            s.lemma_filter_contains_rev(pt, t.last());
            let j = choose|j: int| 0 <= j < s.len() && s[j] == t.last();
            assert(s[j].0.center_key() <= s[s.len() - 1].0.center_key());
        }
        let sd = s.drop_last();
        let td = t.drop_last();
        assert forall|key: u32| #[trigger] with_center(td, key) == with_center(sd, key) by {
            reveal_with_fuel(Seq::filter, 1);
            assert(with_center(t, key) == with_center(s, key));
            if key == ks {
                let a = with_center(sd, key);
                let b = with_center(td, key);
                assert(with_center(s, key) == a.push(s.last()));
                assert(with_center(t, key) == b.push(t.last()));
                assert(a.push(s.last()).drop_last() =~= a);
                assert(b.push(t.last()).drop_last() =~= b);
            }
        }
        assert(s.last() == t.last()) by {
            reveal_with_fuel(Seq::filter, 1);
            let a = with_center(sd, ks);
            let b = with_center(td, ks);
            assert(with_center(t, ks) == with_center(s, ks));
            assert(with_center(s, ks) == a.push(s.last()));
            assert(with_center(t, ks) == b.push(t.last()));
            assert(a.push(s.last()).last() == s.last());
            assert(b.push(t.last()).last() == t.last());
        }
        assert(sorted_by_center(sd)) by {
            assert forall|i: int, j: int| 0 <= i <= j < sd.len() implies (#[trigger] sd[i]).0.center_key()
                <= (#[trigger] sd[j]).0.center_key() by {
                assert(s[i].0.center_key() <= s[j].0.center_key());
            }
        }
        assert(sorted_by_center(td)) by {
            assert forall|i: int, j: int| 0 <= i <= j < td.len() implies (#[trigger] td[i]).0.center_key()
                <= (#[trigger] td[j]).0.center_key() by {
                assert(t[i].0.center_key() <= t[j].0.center_key());
            }
        }
        lemma_sorted_runs_decide(sd, td);
        assert(t =~= td.push(t.last()));
        assert(s =~= sd.push(s.last()));
    }
}

/// Sorting what is already sorted changes nothing.
pub proof fn lemma_stable_sort_of_sorted<T>(after: Seq<(Rectangle, T)>, before: Seq<(Rectangle, T)>)
    requires
        sorted_by_center(before),
        stable_sort_of(after, before),
    ensures
        after == before,
{
    lemma_sorted_runs_decide(before, after);
}

/// The nodes `lo .. hi` lie side by side and between them span the stored
/// values `0 .. upto`.
pub(crate) open spec fn tiles(nodes: Seq<Node>, lo: int, hi: int, upto: int) -> bool {
    &&& chained(nodes, lo, hi)
    &&& lo < hi ==> span_lo(nodes, lo) == 0 && span_hi(nodes, hi - 1) == upto
    &&& lo >= hi ==> upto == 0
}

/// Appending a node keeps a tiling by earlier nodes.
pub(crate) proof fn lemma_push_keeps_tiles(nodes: Seq<Node>, nd: Node, lo: int, hi: int, upto: int)
    requires
        0 <= lo,
        hi <= nodes.len(),
        tiles(nodes, lo, hi, upto),
    ensures
        tiles(nodes.push(nd), lo, hi, upto),
{
    let more = nodes.push(nd);
    assert forall|c: int| lo <= c && c + 1 < hi implies #[trigger] span_hi(more, c) == span_lo(
        more,
        c + 1,
    ) by {
        lemma_push_keeps_span(nodes, nd, c);
        lemma_push_keeps_span(nodes, nd, c + 1);
    }
    if lo < hi {
        lemma_push_keeps_span(nodes, nd, lo);
        lemma_push_keeps_span(nodes, nd, hi - 1);
    }
}

/// Sorts the entries by the sort key of their rectangles with
/// `slice::sort_by_key` of the standard library. That sort is documented as
/// stable: the result is a rearrangement of the input in ascending order of
/// the key, and entries with equal keys keep their relative order. None of
/// this is checked here.
#[verifier::external_body]
fn sort_by_center<T>(values: &mut Vec<(Rectangle, T)>)
    ensures
        stable_sort_of(final(values)@, old(values)@),
{
    values.sort_by_key(|v| center_key(&v.0));
}

/// A static index over rectangles, each stored with a handle of type `T`.
///
/// The index is filled in batches. After each batch the stored entries are
/// sorted along the Z-order curve and a tree of bounding rectangles is built
/// over them from the leaves up.
pub struct RTree<T> {
    pub(crate) nodes: Vec<Node>,
    pub(crate) values: Vec<(Rectangle, T)>,
}

impl<T> View for RTree<T> {
    type V = Seq<(Rectangle, T)>;

    /// The stored entries, in the order in which queries report them.
    closed spec fn view(&self) -> Seq<(Rectangle, T)> {
        self.values@
    }
}

impl<T> RTree<T> {
    /// The stored entries are sorted and the nodes form a tree over them
    /// whose root bounds them all.
    pub closed spec fn wf(&self) -> bool {
        &&& tree_wf(self.nodes@, value_rects(self.values@))
        &&& sorted_by_center(self.values@)
    }

    /// The nodes of the tree, the leaves first and the root last.
    pub closed spec fn nodes(&self) -> Seq<Node> {
        self.nodes@
    }

    /// The bounding rectangle of the root, if the tree has one.
    pub closed spec fn root_rect(&self) -> Option<Rectangle> {
        if self.nodes@.len() == 0 {
            None
        } else {
            Some(self.nodes@[self.nodes@.len() - 1].rect)
        }
    }

    /// What the view and the invariant say of the two arrays.
    pub(crate) proof fn lemma_unfold(&self)
        ensures
            self@ == self.values@,
            self.nodes() == self.nodes@,
            self.wf() == (tree_wf(self.nodes@, value_rects(self.values@)) && sorted_by_center(
                self.values@,
            )),
            self.root_rect() == (if self.nodes@.len() == 0 {
                None
            } else {
                Some(self.nodes@[self.nodes@.len() - 1].rect)
            }),
    {
    }

    /// An index that holds nothing.
    pub fn new() -> (tree: RTree<T>)
        ensures
            tree.wf(),
            tree@.len() == 0,
    {
        RTree { nodes: Vec::new(), values: Vec::new() }
    }

    /// Sorts the stored entries and builds the tree over them anew.
    fn rebuild(&mut self)
        ensures
            final(self).wf(),
            stable_sort_of(final(self)@, old(self)@),
    {
        sort_by_center(&mut self.values);
        self.nodes.clear();

        let ghost vals = self.values@;
        let ghost rects = value_rects(vals);
        let n: usize = self.values.len();

        let mut start: usize = 0;
        while start != n
            invariant
                self.values@ == vals,
                rects == value_rects(vals),
                n == vals.len(),
                start <= n,
                nodes_wf(self.nodes@, rects, self.nodes@.len() as int),
                tiles(self.nodes@, 0, self.nodes@.len() as int, start as int),
                start == 0 ==> self.nodes@.len() == 0,
                self.nodes@.len() == runs(start as int),
                start < n ==> start == FANOUT_SIZE * self.nodes@.len(),
                nodes_planned(self.nodes@, n as int, self.nodes@.len() as int),
            decreases n - start,
        {
            let end: usize = if n - start > FANOUT_SIZE {
                start + FANOUT_SIZE
            } else {
                n
            };
            let mut rect = self.values[start].0;
            for i in (start + 1)..end
                invariant
                    self.values@ == vals,
                    rects == value_rects(vals),
                    start < end <= vals.len(),
                    rect == bounding(rects, start as int, i as int),
            {
                rect = rect.extend(self.values[i].0);
            }
            let node = Node { rect: rect, leaf: PointsAt::Leaf, start: start, stop: end };
            proof {
                let before = self.nodes@;
                let after = before.push(node);
                lemma_push_keeps_wf(before, node, rects, before.len() as int);
                lemma_push_keeps_tiles(before, node, 0, before.len() as int, start as int);
                assert forall|i: int| 0 <= i < after.len() implies #[trigger] node_planned(
                    after,
                    n as int,
                    i,
                ) by {
                    if i < before.len() {
                        assert(node_planned(before, n as int, i));
                    }
                }
            }
            self.nodes.push(node);
            start = end;
        }

        let mut start: usize = 0;
        let mut stop: usize = self.nodes.len();
        while stop - start > 1
            invariant
                self.values@ == vals,
                rects == value_rects(vals),
                start <= stop,
                stop == self.nodes@.len(),
                nodes_wf(self.nodes@, rects, self.nodes@.len() as int),
                tiles(self.nodes@, start as int, stop as int, vals.len() as int),
                vals.len() == 0 ==> self.nodes@.len() == 0,
                nodes_planned(self.nodes@, vals.len() as int, self.nodes@.len() as int),
                forall|i: int|
                    i >= stop ==> planned(vals.len() as int, 0, 0, i) == above(
                        stop - start,
                        start as int,
                        stop as int,
                        i,
                    ),
                planned_len(vals.len() as int, 0) == above_len(stop - start, stop as int),
                runs(vals.len() as int) <= stop,
            decreases stop - start,
        {
            let ghost first = start;
            while start != stop
                invariant
                    self.values@ == vals,
                    rects == value_rects(vals),
                    first <= start <= stop,
                    stop - first > 1,
                    stop <= self.nodes@.len(),
                    nodes_wf(self.nodes@, rects, self.nodes@.len() as int),
                    tiles(self.nodes@, first as int, stop as int, vals.len() as int),
                    tiles(
                        self.nodes@,
                        stop as int,
                        self.nodes@.len() as int,
                        if start < stop {
                            span_lo(self.nodes@, start as int)
                        } else {
                            vals.len() as int
                        },
                    ),
                    self.nodes@.len() - stop <= start - first,
                    start > first ==> self.nodes@.len() - stop < start - first,
                    self.nodes@.len() - stop == runs(start - first),
                    start < stop ==> start - first == FANOUT_SIZE * (self.nodes@.len() - stop),
                    nodes_planned(self.nodes@, vals.len() as int, self.nodes@.len() as int),
                    runs(vals.len() as int) <= stop,
                    forall|i: int|
                        i >= stop ==> planned(vals.len() as int, 0, 0, i) == planned(
                            stop - first,
                            first as int,
                            stop as int,
                            i,
                        ),
                decreases stop - start,
            {
                let end: usize = if stop - start > FANOUT_SIZE {
                    start + FANOUT_SIZE
                } else {
                    stop
                };
                let mut rect = self.nodes[start].rect;
                for i in (start + 1)..end
                    invariant
                        start < end <= self.nodes@.len(),
                        rect == bounding(node_rects(self.nodes@), start as int, i as int),
                {
                    rect = rect.extend(self.nodes[i].rect);
                }
                let node = Node { rect: rect, leaf: PointsAt::Inner, start: start, stop: end };
                proof {
                    let before = self.nodes@;
                    let after = before.push(node);
                    let at = before.len() as int;
                    lemma_push_keeps_wf(before, node, rects, at);
                    lemma_push_keeps_tiles(before, node, first as int, stop as int, vals.len() as int);
                    lemma_push_keeps_tiles(
                        before,
                        node,
                        stop as int,
                        at,
                        span_lo(before, start as int),
                    );
                    lemma_bounding_agree(
                        node_rects(before),
                        node_rects(after),
                        start as int,
                        end as int,
                    );
                    lemma_push_keeps_span(before, node, start as int);
                    lemma_push_keeps_span(before, node, end - 1);
                    assert forall|i: int| 0 <= i < after.len() implies #[trigger] node_planned(
                        after,
                        vals.len() as int,
                        i,
                    ) by {
                        if i < before.len() {
                            assert(node_planned(before, vals.len() as int, i));
                        }
                    }
                }
                self.nodes.push(node);
                start = end;
            }
            start = stop;
            stop = self.nodes.len();
        }
    }

    /// Discards every stored entry and the tree over them.
    pub fn clear(&mut self)
        ensures
            final(self).wf(),
            final(self)@.len() == 0,
    {
        self.values.clear();
        self.nodes.clear();
    }

    /// Adds a batch of entries to the store and rebuilds the tree. Afterwards
    /// the store holds the old entries followed by the batch, sorted by the
    /// Z-order keys of their rectangles, entries of equal key in that order.
    ///
    /// An empty batch leaves the store of a well-formed index as it was.
    pub fn extend(&mut self, iter: Vec<(Rectangle, T)>)
        ensures
            final(self).wf(),
            stable_sort_of(final(self)@, old(self)@ + iter@),
            old(self).wf() && iter@.len() == 0 ==> final(self)@ == old(self)@,
    {
        let mut batch = iter;
        self.values.append(&mut batch);
        self.rebuild();
        proof {
            if old(self).wf() && iter@.len() == 0 {
                lemma_stable_sort_of_sorted(self@, old(self)@);
            }
        }
    }

    /// An index over the given entries.
    pub fn from_iter(iter: Vec<(Rectangle, T)>) -> (tree: RTree<T>)
        ensures
            tree.wf(),
            stable_sort_of(tree@, iter@),
    {
        let mut rtree = RTree::new();
        rtree.extend(iter);
        rtree
    }
}

} // verus!
