//! The nodes of a built tree, and what it means for them to form one.
//!
//! Nodes live in one flat array. A leaf names a run of stored values, an
//! inner node names a run of nodes that come before it in the array. The
//! last node is the root.

use vstd::prelude::*;
use crate::rtree::rectangle::bounding;
use crate::rtree::rectangle::lemma_bounding_agree;
use crate::rtree::rectangle::lemma_bounding_covers;
use crate::rtree::rectangle::lemma_bounding_split;
use crate::rtree::rectangle::Rectangle;

verus! {

/// The largest number of entries a node may hold.
pub const FANOUT_SIZE: usize = 8;

/// What the index range of a node refers to.
#[derive(Debug, Copy, Clone, Hash, PartialEq, Eq, PartialOrd, Ord, Structural)]
pub enum PointsAt {
    /// A run of stored values.
    Leaf,
    /// A run of nodes.
    Inner,
}

/// One node of the tree: a bounding rectangle and the half-open range
/// `start .. stop` of what lies below it.
#[derive(Debug, Copy, Clone, Hash, PartialEq, Eq, PartialOrd, Ord, Structural)]
pub struct Node {
    pub(crate) rect: Rectangle,
    pub(crate) leaf: PointsAt,
    pub(crate) start: usize,
    pub(crate) stop: usize,
}

impl Node {
    /// The bounding rectangle of the node.
    pub closed spec fn rect(&self) -> Rectangle {
        self.rect
    }

    /// What the range of the node refers to.
    pub closed spec fn points_at(&self) -> PointsAt {
        self.leaf
    }

    /// The first index of the range of the node.
    pub closed spec fn start(&self) -> int {
        self.start as int
    }

    /// One past the last index of the range of the node.
    pub closed spec fn stop(&self) -> int {
        self.stop as int
    }

    /// What the four views of a node say of its fields.
    pub(crate) proof fn lemma_unfold(&self)
        ensures
            self.rect() == self.rect,
            self.points_at() == self.leaf,
            self.start() == self.start,
            self.stop() == self.stop,
    {
    }
}

/// The number of runs of at most `FANOUT_SIZE` that `count` items in a row
/// are cut into, all runs but the last being full.
pub open spec fn runs(count: int) -> int {
    (count + FANOUT_SIZE - 1) / (FANOUT_SIZE as int)
}

/// The range of node `i`, where the `count` items from index `below` on are
/// cut into runs, one node for each run, the nodes are placed from index
/// `base` on, and as long as there is more than one node on a level the
/// nodes of that level are cut into runs in the same way, one level above
/// the other.
pub open spec fn planned(count: int, below: int, base: int, i: int) -> (int, int)
    decreases count,
{
    if count <= 0 || i < base {
        (0, 0)
    } else if i < base + runs(count) {
        let start = below + FANOUT_SIZE * (i - base);
        (
            start,
            if start + FANOUT_SIZE <= below + count {
                start + FANOUT_SIZE
            } else {
                below + count
            },
        )
    } else if runs(count) > 1 {
        planned(runs(count), base, base + runs(count), i)
    } else {
        (0, 0)
    }
}

/// The number of nodes that the levels over `count` items come to, placed
/// from index `base` on.
pub open spec fn planned_len(count: int, base: int) -> int
    decreases count,
{
    if count <= 0 {
        base
    } else if runs(count) > 1 {
        planned_len(runs(count), base + runs(count))
    } else {
        base + runs(count)
    }
}

/// The range of node `i` where `i` lies above a level of `count` nodes that
/// begins at `below` and ends before `base`.
pub(crate) open spec fn above(count: int, below: int, base: int, i: int) -> (int, int) {
    if count > 1 {
        planned(count, below, base, i)
    } else {
        (0, 0)
    }
}

/// The number of nodes in all, where the topmost level so far has `count`
/// nodes and ends before `base`.
pub(crate) open spec fn above_len(count: int, base: int) -> int {
    if count > 1 {
        planned_len(count, base)
    } else {
        base
    }
}

/// Node `i` has the range and the kind that the plan for `total` stored
/// values gives it.
pub(crate) open spec fn node_planned(nodes: Seq<Node>, total: int, i: int) -> bool {
    &&& (nodes[i].start as int, nodes[i].stop as int) == planned(total, 0, 0, i)
    &&& (nodes[i].leaf == PointsAt::Leaf) == (i < runs(total))
}

/// The first `n` nodes are laid out as planned.
pub(crate) open spec fn nodes_planned(nodes: Seq<Node>, total: int, n: int) -> bool {
    forall|i: int| 0 <= i < n ==> #[trigger] node_planned(nodes, total, i)
}

/// The bounding rectangles of a sequence of nodes, in the same order.
pub(crate) open spec fn node_rects(nodes: Seq<Node>) -> Seq<Rectangle> {
    nodes.map_values(|n: Node| n.rect)
}

/// The index of the first stored value below node `i`.
pub(crate) open spec fn span_lo(nodes: Seq<Node>, i: int) -> int
    decreases i,
{
    if i < 0 || i >= nodes.len() {
        0
    } else if nodes[i].leaf == PointsAt::Leaf {
        nodes[i].start as int
    } else if nodes[i].start < i {
        span_lo(nodes, nodes[i].start as int)
    } else {
        0
    }
}

/// One past the index of the last stored value below node `i`.
pub(crate) open spec fn span_hi(nodes: Seq<Node>, i: int) -> int
    decreases i,
{
    if i < 0 || i >= nodes.len() {
        0
    } else if nodes[i].leaf == PointsAt::Leaf {
        nodes[i].stop as int
    } else if 0 < nodes[i].stop <= i {
        span_hi(nodes, nodes[i].stop - 1)
    } else {
        0
    }
}

/// The nodes `lo .. hi` lie side by side: each one's values end where the
/// next one's begin.
pub(crate) open spec fn chained(nodes: Seq<Node>, lo: int, hi: int) -> bool {
    forall|c: int| lo <= c && c + 1 < hi ==> #[trigger] span_hi(nodes, c) == span_lo(nodes, c + 1)
}

/// Node `i` is a proper node over the rectangles `rects`: its range is not
/// empty and no wider than the fanout, it refers to values that exist or to
/// nodes before it that lie side by side, and its rectangle is the union
/// of the rectangles in its range.
pub(crate) open spec fn node_wf(nodes: Seq<Node>, rects: Seq<Rectangle>, i: int) -> bool {
    let nd = nodes[i];
    &&& nd.start < nd.stop
    &&& nd.stop - nd.start <= FANOUT_SIZE
    &&& nd.leaf == PointsAt::Leaf ==> {
        &&& nd.stop <= rects.len()
        &&& nd.rect == bounding(rects, nd.start as int, nd.stop as int)
    }
    &&& nd.leaf == PointsAt::Inner ==> {
        &&& nd.stop <= i
        &&& chained(nodes, nd.start as int, nd.stop as int)
        &&& nd.rect == bounding(node_rects(nodes), nd.start as int, nd.stop as int)
    }
}

/// Every one of the first `n` nodes is a proper node.
pub(crate) open spec fn nodes_wf(nodes: Seq<Node>, rects: Seq<Rectangle>, n: int) -> bool {
    forall|i: int| 0 <= i < n ==> #[trigger] node_wf(nodes, rects, i)
}

/// The nodes form a tree over `rects`: all are proper nodes, they are laid
/// out level by level as planned, there is none when there is no value, and
/// otherwise the last node spans every value.
pub(crate) open spec fn tree_wf(nodes: Seq<Node>, rects: Seq<Rectangle>) -> bool {
    &&& nodes_wf(nodes, rects, nodes.len() as int)
    &&& nodes_planned(nodes, rects.len() as int, nodes.len() as int)
    &&& nodes.len() == planned_len(rects.len() as int, 0)
    &&& rects.len() == 0 ==> nodes.len() == 0
    &&& rects.len() > 0 ==> {
        &&& nodes.len() > 0
        &&& span_lo(nodes, nodes.len() - 1) == 0
        &&& span_hi(nodes, nodes.len() - 1) == rects.len()
    }
}

/// The nodes `lo .. hi`, lying side by side, each bounding its own span,
/// together bound the span from the first one's start to the last one's end.
pub(crate) proof fn lemma_run_span(nodes: Seq<Node>, rects: Seq<Rectangle>, lo: int, hi: int)
    requires
        0 <= lo < hi <= nodes.len(),
        chained(nodes, lo, hi),
        forall|c: int|
            lo <= c < hi ==> {
                &&& 0 <= #[trigger] span_lo(nodes, c) < span_hi(nodes, c) <= rects.len()
                &&& nodes[c].rect == bounding(rects, span_lo(nodes, c), span_hi(nodes, c))
            },
    ensures
        0 <= span_lo(nodes, lo) < span_hi(nodes, hi - 1) <= rects.len(),
        bounding(node_rects(nodes), lo, hi) == bounding(
            rects,
            span_lo(nodes, lo),
            span_hi(nodes, hi - 1),
        ),
    decreases hi - lo,
{
    if hi - lo > 1 {
        lemma_run_span(nodes, rects, lo, hi - 1);
        lemma_bounding_split(rects, span_lo(nodes, lo), span_lo(nodes, hi - 1), span_hi(nodes, hi - 1));
    }
}

/// A proper node bounds exactly the stored rectangles of its span, and its
/// span is a non-empty run of stored values.
pub(crate) proof fn lemma_node_span(nodes: Seq<Node>, rects: Seq<Rectangle>, i: int)
    requires
        0 <= i < nodes.len(),
        nodes_wf(nodes, rects, i + 1),
    ensures
        0 <= span_lo(nodes, i) < span_hi(nodes, i) <= rects.len(),
        nodes[i].rect == bounding(rects, span_lo(nodes, i), span_hi(nodes, i)),
    decreases i,
{
    let nd = nodes[i];
    assert(node_wf(nodes, rects, i));
    if nd.leaf == PointsAt::Inner {
        assert forall|c: int| nd.start <= c < nd.stop implies {
            &&& 0 <= #[trigger] span_lo(nodes, c) < span_hi(nodes, c) <= rects.len()
            &&& nodes[c].rect == bounding(rects, span_lo(nodes, c), span_hi(nodes, c))
        } by {
            lemma_node_span(nodes, rects, c);
        }
        lemma_run_span(nodes, rects, nd.start as int, nd.stop as int);
    }
}

/// A query that misses the rectangle of a proper node misses every stored
/// rectangle of its span.
pub(crate) proof fn lemma_node_prunes(
    nodes: Seq<Node>,
    rects: Seq<Rectangle>,
    i: int,
    query: Rectangle,
    k: int,
)
    requires
        0 <= i < nodes.len(),
        nodes_wf(nodes, rects, i + 1),
        !nodes[i].rect.intersects(query),
        span_lo(nodes, i) <= k < span_hi(nodes, i),
    ensures
        !rects[k].intersects(query),
{
    lemma_node_span(nodes, rects, i);
    lemma_bounding_covers(rects, span_lo(nodes, i), span_hi(nodes, i), k);
}

/// Appending a node changes nothing about the nodes before it.
pub(crate) proof fn lemma_push_keeps_span(nodes: Seq<Node>, nd: Node, i: int)
    requires
        0 <= i < nodes.len(),
    ensures
        span_lo(nodes.push(nd), i) == span_lo(nodes, i),
        span_hi(nodes.push(nd), i) == span_hi(nodes, i),
    decreases i,
{
    let more = nodes.push(nd);
    if nodes[i].leaf == PointsAt::Inner {
        if nodes[i].start < i {
            lemma_push_keeps_span(nodes, nd, nodes[i].start as int);
        }
        if 0 < nodes[i].stop <= i {
            lemma_push_keeps_span(nodes, nd, nodes[i].stop - 1);
        }
    }
}

/// Appending a node keeps every proper node proper.
pub(crate) proof fn lemma_push_keeps_wf(nodes: Seq<Node>, nd: Node, rects: Seq<Rectangle>, n: int)
    requires
        0 <= n <= nodes.len(),
        nodes_wf(nodes, rects, n),
    ensures
        nodes_wf(nodes.push(nd), rects, n),
{
    let more = nodes.push(nd);
    assert forall|i: int| 0 <= i < n implies #[trigger] node_wf(more, rects, i) by {
        assert(node_wf(nodes, rects, i));
        let cur = nodes[i];
        if cur.leaf == PointsAt::Inner {
            assert forall|c: int| cur.start <= c && c + 1 < cur.stop implies #[trigger] span_hi(
                more,
                c,
            ) == span_lo(more, c + 1) by {
                lemma_push_keeps_span(nodes, nd, c);
                lemma_push_keeps_span(nodes, nd, c + 1);
            }
            lemma_bounding_agree(
                node_rects(nodes),
                node_rects(more),
                cur.start as int,
                cur.stop as int,
            );
        }
    }
}

} // verus!
