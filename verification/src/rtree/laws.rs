//! What holds of the index as a whole.

use vstd::prelude::*;
use crate::rtree::iter::linear_scan;
use crate::rtree::node::lemma_node_span;
use crate::rtree::node::node_rects;
use crate::rtree::node::node_wf;
use crate::rtree::node::node_planned;
use crate::rtree::node::planned;
use crate::rtree::node::planned_len;
use crate::rtree::node::runs;
use crate::rtree::node::PointsAt;
use crate::rtree::node::FANOUT_SIZE;
use crate::rtree::rectangle::lemma_bounding_agree;
use crate::rtree::rectangle::bounding;
use crate::rtree::rectangle::value_rects;
use crate::rtree::rectangle::Rectangle;
use crate::rtree::tree::lemma_stable_sort_of_sorted;
use crate::rtree::tree::sorted_by_center;
use crate::rtree::tree::stable_sort_of;
use crate::rtree::tree::RTree;

verus! {

/// The store of a well-formed index is sorted by the Z-order keys of its
/// rectangles.
pub proof fn lemma_store_is_sorted<T>(tree: RTree<T>)
    requires
        tree.wf(),
    ensures
        sorted_by_center(tree@),
{
    tree.lemma_unfold();
}

/// A well-formed index has a root exactly when it stores something, and the
/// rectangle of the root is the union of all stored rectangles.
pub proof fn lemma_root_bounds_all<T>(tree: RTree<T>)
    requires
        tree.wf(),
    ensures
        tree@.len() == 0 <==> tree.root_rect() is None,
        tree@.len() > 0 ==> tree.root_rect() == Some(
            bounding(value_rects(tree@), 0, tree@.len() as int),
        ),
{
    tree.lemma_unfold();
    if tree@.len() > 0 {
        lemma_node_span(tree.nodes@, value_rects(tree@), tree.nodes@.len() - 1);
    }
}

/// The rectangles of the nodes of an index, in the order of the nodes.
pub open spec fn rects_of_nodes<T>(tree: RTree<T>) -> Seq<Rectangle> {
    Seq::new(tree.nodes().len(), |i: int| tree.nodes()[i].rect())
}

/// In a well-formed index every node has a range that is not empty and
/// holds at most `FANOUT_SIZE` entries. A leaf refers to a run of stored
/// values, an inner node to a run of nodes that stand before it, and the
/// rectangle of either is the union of the rectangles in its range.
pub proof fn lemma_nodes_are_proper<T>(tree: RTree<T>, i: int)
    requires
        tree.wf(),
        0 <= i < tree.nodes().len(),
    ensures
        0 <= tree.nodes()[i].start() < tree.nodes()[i].stop(),
        tree.nodes()[i].stop() - tree.nodes()[i].start() <= FANOUT_SIZE,
        tree.nodes()[i].points_at() == PointsAt::Leaf ==> {
            &&& tree.nodes()[i].stop() <= tree@.len()
            &&& tree.nodes()[i].rect() == bounding(
                value_rects(tree@),
                tree.nodes()[i].start(),
                tree.nodes()[i].stop(),
            )
        },
        tree.nodes()[i].points_at() == PointsAt::Inner ==> {
            &&& tree.nodes()[i].stop() <= i
            &&& tree.nodes()[i].rect() == bounding(
                rects_of_nodes(tree),
                tree.nodes()[i].start(),
                tree.nodes()[i].stop(),
            )
        },
{
    tree.lemma_unfold();
    let nodes = tree.nodes();
    let nd = nodes[i];
    nd.lemma_unfold();
    assert(node_wf(nodes, value_rects(tree@), i));
    if nd.points_at() == PointsAt::Inner {
        assert forall|k: int| nd.start() <= k < nd.stop() implies node_rects(nodes)[k]
            == rects_of_nodes(tree)[k] by {
            nodes[k].lemma_unfold();
        }
        lemma_bounding_agree(node_rects(nodes), rects_of_nodes(tree), nd.start(), nd.stop());
    }
}

/// In a well-formed index the nodes are laid out as planned: first one
/// leaf for every run of `FANOUT_SIZE` stored values, the last run being
/// what is left, then level by level one node for every run of nodes of the
/// level below, until a level has a single node, the root.
pub proof fn lemma_nodes_are_planned<T>(tree: RTree<T>, i: int)
    requires
        tree.wf(),
        0 <= i < tree.nodes().len(),
    ensures
        tree.nodes().len() == planned_len(tree@.len() as int, 0),
        (tree.nodes()[i].start(), tree.nodes()[i].stop()) == planned(tree@.len() as int, 0, 0, i),
        (tree.nodes()[i].points_at() == PointsAt::Leaf) == (i < runs(tree@.len() as int)),
{
    tree.lemma_unfold();
    tree.nodes()[i].lemma_unfold();
    assert(node_planned(tree.nodes(), tree@.len() as int, i));
}

/// Nothing is found in an index that stores nothing.
pub proof fn lemma_nothing_in_empty<T>(values: Seq<(Rectangle, T)>, query: Rectangle)
    requires
        values.len() == 0,
    ensures
        linear_scan(values, query) == Seq::<(Rectangle, T)>::empty(),
{
}

/// Extending a well-formed index by an empty batch leaves the store, and
/// with it the answer to every query, as it was.
pub proof fn lemma_extend_by_nothing<T>(
    before: RTree<T>,
    batch: Seq<(Rectangle, T)>,
    after: RTree<T>,
    query: Rectangle,
)
    requires
        before.wf(),
        batch.len() == 0,
        stable_sort_of(after@, before@ + batch),
    ensures
        after@ == before@,
        linear_scan(after@, query) == linear_scan(before@, query),
{
    before.lemma_unfold();
    lemma_stable_sort_of_sorted(after@, before@);
}

/// A search reports an entry exactly as often as the store holds it, if its
/// rectangle intersects the query, and never otherwise: nothing is left
/// out, nothing comes twice, nothing else comes.
pub proof fn lemma_scan_is_exact<T>(values: Seq<(Rectangle, T)>, query: Rectangle, v: (Rectangle, T))
    ensures
        linear_scan(values, query).to_multiset().count(v) == (if v.0.intersects(query) {
            values.to_multiset().count(v)
        } else {
            0
        }),
    decreases values.len(),
{
    broadcast use vstd::multiset::group_multiset_axioms;

    reveal_with_fuel(Seq::filter, 1);
    if values.len() == 0 {
        assert(values.to_multiset().count(v) == 0) by {
            values.to_multiset_ensures();
        }
    } else {
        let front = values.drop_last();
        let last = values.last();
        lemma_scan_is_exact(front, query, v);
        assert(values =~= front.push(last));
        front.to_multiset_ensures();
        if last.0.intersects(query) {
            linear_scan(front, query).to_multiset_ensures();
        }
    }
}

/// A search reports exactly the stored entries whose rectangle intersects
/// the query.
pub proof fn lemma_scan_as_set<T>(values: Seq<(Rectangle, T)>, query: Rectangle, v: (Rectangle, T))
    ensures
        linear_scan(values, query).contains(v) <==> values.contains(v) && v.0.intersects(query),
{
    lemma_scan_is_exact(values, query, v);
    values.to_multiset_ensures();
    linear_scan(values, query).to_multiset_ensures();
}

} // verus!
