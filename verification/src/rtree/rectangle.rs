//! Axis-aligned rectangles and the predicates the index needs of them.

use vstd::prelude::*;
use crate::rtree::point::morton_decode;
use crate::rtree::point::morton_encode;
use crate::rtree::point::MortonPoint;
use crate::rtree::point::Point;

verus! {

/// An axis-aligned rectangle, given by two opposite corners.
///
/// A rectangle is meant to have `min` at or below `max` on both axes.
/// Nothing here checks that; the predicates below are total either way.
#[derive(Debug, Copy, Clone, Hash, PartialEq, Eq, PartialOrd, Ord, Structural)]
pub struct Rectangle {
    pub min: Point,
    pub max: Point,
}

/// A rectangle whose two corners are given by their Z-order keys.
#[derive(Debug, Copy, Clone, Hash, PartialEq, Eq, PartialOrd, Ord, Structural)]
pub struct MortonRectangle {
    pub min: MortonPoint,
    pub max: MortonPoint,
}

/// The smaller of two coordinates.
pub open spec fn lesser(a: i16, b: i16) -> i16 {
    if a <= b {
        a
    } else {
        b
    }
}

/// The larger of two coordinates.
pub open spec fn greater(a: i16, b: i16) -> i16 {
    if a >= b {
        a
    } else {
        b
    }
}

impl Rectangle {
    /// The two rectangles share at least one point, a common edge or corner
    /// included.
    pub open spec fn spec_intersects(&self, b: Rectangle) -> bool {
        &&& self.min.x <= b.max.x
        &&& self.min.y <= b.max.y
        &&& b.min.x <= self.max.x
        &&& b.min.y <= self.max.y
    }

    /// The two rectangles share interior area; touching edges do not count.
    pub open spec fn spec_overlaps(&self, b: Rectangle) -> bool {
        &&& self.min.x < b.max.x
        &&& self.min.y < b.max.y
        &&& b.min.x < self.max.x
        &&& b.min.y < self.max.y
    }

    /// The smallest rectangle that contains both.
    pub open spec fn spec_extend(self, b: Rectangle) -> Rectangle {
        Rectangle {
            min: Point { x: lesser(self.min.x, b.min.x), y: lesser(self.min.y, b.min.y) },
            max: Point { x: greater(self.max.x, b.max.x), y: greater(self.max.y, b.max.y) },
        }
    }

    /// `self` reaches at least as far as `b` in all four directions.
    pub open spec fn covers(&self, b: Rectangle) -> bool {
        &&& self.min.x <= b.min.x
        &&& self.min.y <= b.min.y
        &&& b.max.x <= self.max.x
        &&& b.max.y <= self.max.y
    }

    /// The sort key of the rectangle: the sum of the halved Z-order keys of
    /// its two corners.
    pub open spec fn center_key(&self) -> u32 {
        (morton_encode(self.min) / 2 + morton_encode(self.max) / 2) as u32
    }

    /// does anypoint in the rectangle touch the lhs.
    /// this includes the case where two rectangles share an edge
    #[verifier::when_used_as_spec(spec_intersects)]
    pub fn intersects(&self, b: Rectangle) -> (hit: bool)
        ensures
            hit == self.spec_intersects(b),
    {
        let a = self;
        !(a.min.x > b.max.x || a.min.y > b.max.y || b.min.x > a.max.x || b.min.y > a.max.y)
    }

    /// check to see if lhs overlaops with b. This does not include
    /// the case where they share an edge
    #[verifier::when_used_as_spec(spec_overlaps)]
    pub fn overlaps(&self, b: Rectangle) -> (hit: bool)
        ensures
            hit == self.spec_overlaps(b),
    {
        let a = self;
        !(a.min.x >= b.max.x || a.min.y >= b.max.y || b.min.x >= a.max.x || b.min.y >= a.max.y)
    }

    /// The smallest rectangle that contains both `self` and `b`.
    #[verifier::when_used_as_spec(spec_extend)]
    pub fn extend(self, b: Rectangle) -> (union: Rectangle)
        ensures
            union == self.spec_extend(b),
    {
        let a = self;
        Rectangle {
            min: Point {
                x: if a.min.x <= b.min.x { a.min.x } else { b.min.x },
                y: if a.min.y <= b.min.y { a.min.y } else { b.min.y },
            },
            max: Point {
                x: if a.max.x >= b.max.x { a.max.x } else { b.max.x },
                y: if a.max.y >= b.max.y { a.max.y } else { b.max.y },
            },
        }
    }
}

impl MortonRectangle {
    /// The sum of the two halved corner keys.
    pub fn center(&self) -> (c: u32)
        ensures
            c == self.min.0 / 2 + self.max.0 / 2,
    {
        let lo: u32 = self.min.0 >> 1;
        let hi: u32 = self.max.0 >> 1;
        let a: u32 = self.min.0;
        let b: u32 = self.max.0;
        assert(a >> 1 == a / 2 && b >> 1 == b / 2 && (a >> 1) <= 0x7fff_ffff && (b >> 1)
            <= 0x7fff_ffff) by (bit_vector);
        lo + hi
    }
}

impl From<Rectangle> for MortonRectangle {
    /// Encodes both corners.
    fn from(p: Rectangle) -> (r: MortonRectangle) {
        MortonRectangle { min: MortonPoint::from(p.min), max: MortonPoint::from(p.max) }
    }
}

impl vstd::std_specs::convert::FromSpecImpl<Rectangle> for MortonRectangle {
    open spec fn obeys_from_spec() -> bool {
        true
    }

    open spec fn from_spec(p: Rectangle) -> MortonRectangle {
        MortonRectangle {
            min: MortonPoint(morton_encode(p.min)),
            max: MortonPoint(morton_encode(p.max)),
        }
    }
}

impl From<MortonRectangle> for Rectangle {
    /// Decodes both corners.
    fn from(p: MortonRectangle) -> (r: Rectangle) {
        Rectangle { min: Point::from(p.min), max: Point::from(p.max) }
    }
}

impl vstd::std_specs::convert::FromSpecImpl<MortonRectangle> for Rectangle {
    open spec fn obeys_from_spec() -> bool {
        true
    }

    open spec fn from_spec(p: MortonRectangle) -> Rectangle {
        Rectangle { min: morton_decode(p.min.0), max: morton_decode(p.max.0) }
    }
}

/// The sort key of a rectangle, computed from the keys of its corners.
pub fn center_key(rect: &Rectangle) -> (key: u32)
    ensures
        key == rect.center_key(),
{
    let m = MortonRectangle::from(*rect);
    m.center()
}

/// Intersection is symmetric.
pub proof fn lemma_intersects_symmetric(a: Rectangle, b: Rectangle)
    ensures
        a.intersects(b) == b.intersects(a),
{
}

/// Rectangles that overlap also intersect.
pub proof fn lemma_overlaps_implies_intersects(a: Rectangle, b: Rectangle)
    requires
        a.overlaps(b),
    ensures
        a.intersects(b),
{
}

/// The union of two rectangles covers both, and any rectangle that covers
/// both covers the union.
pub proof fn lemma_extend_is_least_cover(a: Rectangle, b: Rectangle, c: Rectangle)
    ensures
        a.extend(b).covers(a),
        a.extend(b).covers(b),
        c.covers(a) && c.covers(b) ==> c.covers(a.extend(b)),
{
}

/// Whatever intersects a rectangle intersects every rectangle that covers it.
pub proof fn lemma_cover_keeps_intersection(outer: Rectangle, inner: Rectangle, q: Rectangle)
    requires
        outer.covers(inner),
        inner.intersects(q),
    ensures
        outer.intersects(q),
{
}

/// The rectangles of a sequence of stored entries, in the same order.
pub open spec fn value_rects<T>(values: Seq<(Rectangle, T)>) -> Seq<Rectangle> {
    values.map_values(|v: (Rectangle, T)| v.0)
}

/// The union of the rectangles `rects[lo]`, ..., `rects[hi - 1]`, for
/// `lo < hi`: the smallest rectangle that contains them all.
pub open spec fn bounding(rects: Seq<Rectangle>, lo: int, hi: int) -> Rectangle
    decreases hi - lo,
{
    if hi - lo <= 1 {
        rects[lo]
    } else {
        bounding(rects, lo, hi - 1).extend(rects[hi - 1])
    }
}

/// The union of a run of rectangles covers each of them.
pub proof fn lemma_bounding_covers(rects: Seq<Rectangle>, lo: int, hi: int, k: int)
    requires
        lo <= k < hi,
    ensures
        bounding(rects, lo, hi).covers(rects[k]),
    decreases hi - lo,
{
    if hi - lo > 1 && k < hi - 1 {
        lemma_bounding_covers(rects, lo, hi - 1, k);
    }
}

/// The union of a run is the union of the unions of its two parts.
pub proof fn lemma_bounding_split(rects: Seq<Rectangle>, lo: int, mid: int, hi: int)
    requires
        lo < mid < hi,
    ensures
        bounding(rects, lo, hi) == bounding(rects, lo, mid).extend(bounding(rects, mid, hi)),
    decreases hi - mid,
{
    if hi - mid > 1 {
        lemma_bounding_split(rects, lo, mid, hi - 1);
    }
}

/// The union of a run depends only on the rectangles of that run.
pub proof fn lemma_bounding_agree(a: Seq<Rectangle>, b: Seq<Rectangle>, lo: int, hi: int)
    requires
        lo < hi,
        forall|k: int| lo <= k < hi ==> a[k] == b[k],
    ensures
        bounding(a, lo, hi) == bounding(b, lo, hi),
    decreases hi - lo,
{
    if hi - lo > 1 {
        lemma_bounding_agree(a, b, lo, hi - 1);
    }
}

} // verus!
