//! A hashed grid of bins over the plane: a second, coarser way to find the
//! rectangles that lie near a given one.

use std::collections::HashMap;
use std::collections::HashSet;
use std::hash::Hash;
use std::ops::Range;
use vstd::prelude::*;
use vstd::std_specs::hash::obeys_key_model;

verus! {

pub const HASH_X: i32 = 1888347217;

pub const HASH_Y: i32 = 1424909897;

/// The side of a grid cell.
pub const BIN_SIZE: i32 = 8;

/// The number of bins that the cells are hashed into.
pub const GRID_COUNT: usize = 1024;

/// A rectangle, given by a corner and its extent along both axes.
#[derive(Debug, Copy, Clone)]
pub struct Rectangle {
    pub x: i32,
    pub y: i32,
    pub width: i32,
    pub height: i32,
}

/// The index, along one axis, of the cell that holds the coordinate `v`:
/// `v / 8`, rounded toward zero.
pub open spec fn cell_of(v: int) -> int {
    if v >= 0 {
        v / 8
    } else {
        -((-v) / 8)
    }
}

/// The cells `(x0, y)`, ..., `(x1 - 1, y)`.
pub open spec fn row(x0: int, x1: int, y: int) -> Seq<(i32, i32)> {
    Seq::new(
        if x1 > x0 {
            (x1 - x0) as nat
        } else {
            0
        },
        |i: int| ((x0 + i) as i32, y as i32),
    )
}

/// The rows `y0`, ..., `y1 - 1` of cells, one after the other.
pub open spec fn rows(x0: int, x1: int, y0: int, y1: int) -> Seq<(i32, i32)>
    decreases y1 - y0,
{
    if y0 >= y1 {
        Seq::empty()
    } else {
        row(x0, x1, y0) + rows(x0, x1, y0 + 1, y1)
    }
}

/// The bin that the cell `(x, y)` is hashed into.
pub open spec fn bin_of(x: int, y: int) -> int {
    (x * HASH_X + y * HASH_Y) % 1024
}

/// The index of the cell that holds `v`.
fn cell(v: i32) -> (c: i32)
    ensures
        c == cell_of(v as int),
{
    if v >= 0 {
        v / BIN_SIZE
    } else {
        let size: i64 = -(v as i64);
        -((size / 8) as i32)
    }
}

/// The bin of a cell.
fn bin(x: i32, y: i32) -> (b: usize)
    ensures
        b == bin_of(x as int, y as int),
        b < GRID_COUNT,
{
    let coord: i32 = x.wrapping_mul(HASH_X).wrapping_add(y.wrapping_mul(HASH_Y));
    let low: i32 = coord & 1023;
    proof {
        let range = 0x1_0000_0000int;
        let a = x * HASH_X;
        let b = y * HASH_Y;
        let ca = i32::wrapping_mul(x, HASH_X);
        let cb = i32::wrapping_mul(y, HASH_Y);
        assert(low == coord % 1024 && 0 <= low < 1024) by (bit_vector)
            requires
                low == coord & 1023,
        ;
        lemma_low_bits(a, ca as int);
        lemma_low_bits(b, cb as int);
        lemma_low_bits(ca + cb, coord as int);
        lemma_low_bits_add(a, ca as int, b, cb as int);
    }
    low as usize
}

/// Two integers that differ by a multiple of `2^32` have the same
/// remainder modulo 1024.
proof fn lemma_low_bits(a: int, c: int)
    requires
        c == a % 0x1_0000_0000 || c == a % 0x1_0000_0000 - 0x1_0000_0000 || c == a || c == a
            - 0x1_0000_0000 || c == a + 0x1_0000_0000,
    ensures
        c % 1024 == a % 1024,
{
    let q = a / 0x1_0000_0000;
    assert(a == 0x1_0000_0000 * q + a % 0x1_0000_0000);
    assert forall|k: int, m: int| #[trigger] ((m + 1024 * k) % 1024) == m % 1024 by {
        vstd::arithmetic::div_mod::lemma_mod_multiples_vanish(k, m, 1024);
    }
    let r = a % 0x1_0000_0000;
    assert(a == r + 1024 * (0x40_0000 * q));
    assert((r + 1024 * (0x40_0000 * q)) % 1024 == r % 1024);
    assert(r - 0x1_0000_0000 == r + 1024 * (-0x40_0000));
    assert((r + 1024 * (-0x40_0000)) % 1024 == r % 1024);
    assert(a - 0x1_0000_0000 == a + 1024 * (-0x40_0000));
    assert((a + 1024 * (-0x40_0000)) % 1024 == a % 1024);
    assert(a + 0x1_0000_0000 == a + 1024 * (0x40_0000));
    assert((a + 1024 * (0x40_0000)) % 1024 == a % 1024);
}

/// Remainders modulo 1024 add up.
proof fn lemma_low_bits_add(a: int, ca: int, b: int, cb: int)
    requires
        ca % 1024 == a % 1024,
        cb % 1024 == b % 1024,
    ensures
        (ca + cb) % 1024 == (a + b) % 1024,
{
    vstd::arithmetic::div_mod::lemma_add_mod_noop(a, b, 1024);
    vstd::arithmetic::div_mod::lemma_add_mod_noop(ca, cb, 1024);
}

impl Rectangle {
    /// Both far edges can be computed: `x + width` and `y + height` are
    /// within the range of `i32`.
    pub open spec fn bounded(&self) -> bool {
        &&& i32::MIN <= self.x + self.width <= i32::MAX
        &&& i32::MIN <= self.y + self.height <= i32::MAX
    }

    /// The cells that the rectangle touches, row by row.
    pub open spec fn cells(&self) -> Seq<(i32, i32)> {
        rows(
            cell_of(self.x as int),
            cell_of(self.x + self.width) + 1,
            cell_of(self.y as int),
            cell_of(self.y + self.height) + 1,
        )
    }

    /// The two rectangles share interior area; touching edges do not count.
    pub open spec fn spec_intersects(&self, b: Rectangle) -> bool {
        &&& self.x < b.x + b.width
        &&& self.y < b.y + b.height
        &&& b.x < self.x + self.width
        &&& b.y < self.y + self.height
    }

    /// Starts a walk over the cells that the rectangle touches.
    pub fn iter(&self) -> (it: RecIter)
        requires
            self.bounded(),
        ensures
            it.remaining() == self.cells(),
    {
        let range_x = cell(self.x)..(cell(self.x + self.width) + 1);
        let range_y = cell(self.y)..(cell(self.y + self.height) + 1);
        let it = RecIter { cx: 0..0, cy: 0, x: range_x, y: range_y };
        assert(row(0, 0, 0) + self.cells() =~= self.cells());
        it
    }

    /// The far corner.
    pub fn max(&self) -> (corner: (i32, i32))
        requires
            self.bounded(),
        ensures
            corner.0 == self.x + self.width,
            corner.1 == self.y + self.height,
    {
        (self.x + self.width, self.y + self.height)
    }

    /// Whether the two rectangles share interior area.
    #[verifier::when_used_as_spec(spec_intersects)]
    pub fn intersects(&self, b: Rectangle) -> (hit: bool)
        requires
            self.bounded(),
            b.bounded(),
        ensures
            hit == self.spec_intersects(b),
    {
        let a = self;
        let (a_max_x, a_max_y) = a.max();
        let (b_max_x, b_max_y) = b.max();

        !(a.x >= b_max_x || a.y >= b_max_y || b.x >= a_max_x || b.y >= a_max_y)
    }
}

/// A walk over the cells of a rectangle, row by row.
#[derive(Debug)]
pub struct RecIter {
    cx: Range<i32>,
    cy: i32,
    x: Range<i32>,
    y: Range<i32>,
}

impl RecIter {
    /// The cells still to come, in the order in which they will come.
    pub closed spec fn remaining(&self) -> Seq<(i32, i32)> {
        row(self.cx.start as int, self.cx.end as int, self.cy as int) + rows(
            self.x.start as int,
            self.x.end as int,
            self.y.start as int,
            self.y.end as int,
        )
    }

    /// Hands out the next cell, or `None` after the last.
    pub fn next(&mut self) -> (cell: Option<(i32, i32)>)
        ensures
            match cell {
                Some(c) => {
                    &&& old(self).remaining().len() > 0
                    &&& c == old(self).remaining()[0]
                    &&& final(self).remaining() == old(self).remaining().drop_first()
                },
                None => {
                    &&& old(self).remaining().len() == 0
                    &&& final(self).remaining().len() == 0
                },
            },
    {
        loop
            invariant
                self.remaining() == old(self).remaining(),
            decreases self.y.end - self.y.start,
        {
            if self.cx.start < self.cx.end {
                let x = self.cx.start;
                let ghost before = self.remaining();
                self.cx.start = x + 1;
                proof {
                    let rest = rows(
                        self.x.start as int,
                        self.x.end as int,
                        self.y.start as int,
                        self.y.end as int,
                    );
                    let here = row(x as int, self.cx.end as int, self.cy as int);
                    let after = row(x + 1, self.cx.end as int, self.cy as int);
                    assert(here.drop_first() =~= after);
                    assert((here + rest).drop_first() =~= here.drop_first() + rest);
                }
                return Some((x, self.cy));
            }
            if self.y.start < self.y.end {
                let y = self.y.start;
                let ghost spent = row(self.cx.start as int, self.cx.end as int, self.cy as int);
                let ghost rest = rows(
                    self.x.start as int,
                    self.x.end as int,
                    y as int,
                    self.y.end as int,
                );
                self.y.start = y + 1;
                self.cy = y;
                self.cx = self.x.start..self.x.end;
                proof {
                    assert(spent + rest =~= rest);
                }
            } else {
                proof {
                    let spent = row(self.cx.start as int, self.cx.end as int, self.cy as int);
                    let rest = rows(
                        self.x.start as int,
                        self.x.end as int,
                        self.y.start as int,
                        self.y.end as int,
                    );
                    assert(spent + rest =~= Seq::empty());
                }
                return None;
            }
        }
    }
}

/// The bin of `cell` holds `e`.
pub open spec fn holds<T>(bins: Seq<HashSet<T>>, cell: (i32, i32), e: T) -> bool {
    bins[bin_of(cell.0 as int, cell.1 as int)]@.contains(e)
}

/// One of the first `upto` cells is hashed into the bin `b`.
pub open spec fn touched(cells: Seq<(i32, i32)>, upto: int, b: int) -> bool {
    exists|i: int| 0 <= i < upto && i < cells.len() && #[trigger] bin_of(cells[i].0 as int, cells[i].1 as int) == b
}

/// The number of the cells whose bin holds `e`.
pub open spec fn visits<T>(bins: Seq<HashSet<T>>, cells: Seq<(i32, i32)>, e: T) -> nat
    decreases cells.len(),
{
    if cells.len() == 0 {
        0
    } else {
        (if holds(bins, cells[0], e) {
            1nat
        } else {
            0nat
        }) + visits(bins, cells.drop_first(), e)
    }
}

/// An id that the bin of one of the cells holds is visited at least once.
pub proof fn lemma_visits_positive<T>(bins: Seq<HashSet<T>>, cells: Seq<(i32, i32)>, e: T, i: int)
    requires
        0 <= i < cells.len(),
        holds(bins, cells[i], e),
    ensures
        visits(bins, cells, e) >= 1,
    decreases cells.len(),
{
    if i > 0 {
        assert(cells.drop_first()[i - 1] == cells[i]);
        lemma_visits_positive(bins, cells.drop_first(), e, i - 1);
    }
}

/// The members of a set, each once, in the order in which the set hands
/// them out.
fn members<T: Copy + Eq + Hash>(set: &HashSet<T>) -> (out: Vec<T>)
    requires
        obeys_key_model::<T>(),
    ensures
        out@.to_set() == set@,
        out@.no_duplicates(),
{
    broadcast use vstd::std_specs::hash::group_hash_axioms;

    let mut out: Vec<T> = Vec::new();
    for e in it: set.iter()
        invariant
            out@ == it.seq().unref().take(it.index() as int),
            it.seq().unref().to_set() == set@,
            it.seq().unref().no_duplicates(),
            it.index() == it.seq().len() ==> out@ == it.seq().unref(),
    {
        out.push(*e);
        assert(it.index() + 1 == it.seq().len() ==> it.seq().unref().take(it.index() + 1)
            =~= it.seq().unref());
    }
    out
}

/// Rectangles by id, and for each bin the ids whose rectangle touches a
/// cell of that bin.
pub struct Grid<T> {
    eids: HashMap<T, Rectangle>,
    bins: Vec<HashSet<T>>,
}

impl<T> View for Grid<T> {
    type V = Map<T, Rectangle>;

    /// The rectangle stored for each id.
    closed spec fn view(&self) -> Map<T, Rectangle> {
        self.eids@
    }
}

impl<T: Copy + Eq + Hash> Grid<T> {
    /// The bins, each as the set of ids it holds.
    pub closed spec fn bins(&self) -> Seq<HashSet<T>> {
        self.bins@
    }

    /// There is a bin for every hash value, every id in a bin has a
    /// rectangle, and every id with a rectangle is in the bin of each cell
    /// that its rectangle touches.
    pub closed spec fn wf(&self) -> bool {
        &&& obeys_key_model::<T>()
        &&& self.bins@.len() == GRID_COUNT
        &&& forall|b: int, e: T|
            0 <= b < GRID_COUNT && #[trigger] self.bins@[b]@.contains(e) ==> self.eids@.contains_key(e)
        &&& forall|e: T| #[trigger] self.eids@.contains_key(e) ==> self.eids@[e].bounded()
        &&& forall|e: T, i: int|
            self.eids@.contains_key(e) && 0 <= i < self.eids@[e].cells().len() ==> #[trigger] holds(
                self.bins@,
                self.eids@[e].cells()[i],
                e,
            )
    }

    /// Create an empty grid
    pub fn new() -> (grid: Grid<T>)
        ensures
            grid@ == Map::<T, Rectangle>::empty(),
            grid.bins().len() == GRID_COUNT,
            forall|b: int| 0 <= b < GRID_COUNT ==> (#[trigger] grid.bins()[b])@ == Set::<T>::empty(),
            obeys_key_model::<T>() ==> grid.wf(),
    {
        broadcast use vstd::std_specs::hash::group_hash_axioms;

        let mut bins: Vec<HashSet<T>> = Vec::new();
        for i in 0..GRID_COUNT
            invariant
                bins@.len() == i,
                forall|b: int| 0 <= b < i ==> (#[trigger] bins@[b])@ == Set::<T>::empty(),
        {
            bins.push(HashSet::new());
        }
        Grid { eids: HashMap::new(), bins: bins }
    }

    /// insert a rectangle into the grid
    ///
    /// The id is added to the bin of every cell that the rectangle touches,
    /// and the rectangle is stored for the id in place of any earlier one.
    /// Nothing is taken out of a bin.
    pub fn insert(&mut self, rec: Rectangle, eid: T)
        requires
            old(self).wf(),
            rec.bounded(),
        ensures
            final(self).wf(),
            final(self)@ == old(self)@.insert(eid, rec),
            final(self).bins().len() == GRID_COUNT,
            forall|b: int|
                0 <= b < GRID_COUNT ==> (#[trigger] final(self).bins()[b])@ == (if touched(
                    rec.cells(),
                    rec.cells().len() as int,
                    b,
                ) {
                    old(self).bins()[b]@.insert(eid)
                } else {
                    old(self).bins()[b]@
                }),
    {
        broadcast use vstd::std_specs::hash::group_hash_axioms;

        let mut it = rec.iter();
        let ghost cells = rec.cells();
        let ghost mut done: int = 0;
        loop
            invariant
                obeys_key_model::<T>(),
                self.eids@ == old(self).eids@,
                self.bins@.len() == GRID_COUNT,
                old(self).bins@.len() == GRID_COUNT,
                0 <= done <= cells.len(),
                it.remaining() == cells.subrange(done, cells.len() as int),
                forall|i: int| 0 <= i < done ==> #[trigger] holds(self.bins@, cells[i], eid),
                forall|b: int|
                    0 <= b < GRID_COUNT ==> (#[trigger] self.bins@[b])@ == (if touched(cells, done, b) {
                        old(self).bins@[b]@.insert(eid)
                    } else {
                        old(self).bins@[b]@
                    }),
            ensures
                done == cells.len(),
            decreases it.remaining().len(),
        {
            match it.next() {
                Some((x, y)) => {
                    let b = bin(x, y);
                    let ghost before = self.bins@;
                    self.bins[b].insert(eid);
                    proof {
                        assert(cells[done] == (x, y));
                        assert(cells.subrange(done, cells.len() as int).drop_first()
                            =~= cells.subrange(done + 1, cells.len() as int));
                        assert forall|i: int| 0 <= i < done + 1 implies #[trigger] holds(
                            self.bins@,
                            cells[i],
                            eid,
                        ) by {
                            if i < done {
                                assert(holds(before, cells[i], eid));
                            }
                        }
                        assert forall|k: int| 0 <= k < GRID_COUNT implies (#[trigger] self.bins@[k])@ == (
                        if touched(cells, done + 1, k) {
                            old(self).bins@[k]@.insert(eid)
                        } else {
                            old(self).bins@[k]@
                        }) by {
                            assert(bin_of(cells[done].0 as int, cells[done].1 as int) == b);
                            if touched(cells, done, k) {
                                let i = choose|i: int|
                                    0 <= i < done && i < cells.len() && #[trigger] bin_of(
                                        cells[i].0 as int,
                                        cells[i].1 as int,
                                    ) == k;
                                assert(bin_of(cells[i].0 as int, cells[i].1 as int) == k);
                                assert(touched(cells, done + 1, k));
                            }
                            if touched(cells, done + 1, k) && !touched(cells, done, k) {
                                let i = choose|i: int|
                                    0 <= i < done + 1 && i < cells.len() && #[trigger] bin_of(
                                        cells[i].0 as int,
                                        cells[i].1 as int,
                                    ) == k;
                                assert(i == done);
                            }
                            if k == b {
                                assert(touched(cells, done + 1, k));
                                assert(self.bins@[k]@ =~= before[k]@.insert(eid));
                            } else {
                                assert(self.bins@[k] == before[k]);
                            }
                        }
                        done = done + 1;
                    }
                },
                None => {
                    break ;
                },
            }
        }
        self.eids.insert(eid, rec);
        proof {
            assert(done == cells.len());
            assert forall|e: T, i: int|
                self.eids@.contains_key(e) && 0 <= i < self.eids@[e].cells().len() implies #[trigger] holds(
                self.bins@,
                self.eids@[e].cells()[i],
                e,
            ) by {
                if e != eid {
                    assert(holds(old(self).bins@, old(self).eids@[e].cells()[i], e));
                }
            }
        }
    }
}

/// Every cell of a block of rows is reached by a walk over the block.
pub proof fn lemma_rows_reach(x0: int, x1: int, y0: int, y1: int, cx: int, cy: int)
    requires
        x0 <= cx < x1,
        y0 <= cy < y1,
    ensures
        exists|i: int|
            0 <= i < rows(x0, x1, y0, y1).len() && #[trigger] rows(x0, x1, y0, y1)[i] == (
                cx as i32,
                cy as i32,
            ),
    decreases y1 - y0,
{
    let first = row(x0, x1, y0);
    let rest = rows(x0, x1, y0 + 1, y1);
    if cy == y0 {
        assert((first + rest)[cx - x0] == first[cx - x0]);
        assert(rows(x0, x1, y0, y1)[cx - x0] == (cx as i32, cy as i32));
    } else {
        lemma_rows_reach(x0, x1, y0 + 1, y1, cx, cy);
        let i = choose|i: int| 0 <= i < rest.len() && #[trigger] rest[i] == (cx as i32, cy as i32);
        assert((first + rest)[first.len() + i] == rest[i]);
        assert(rows(x0, x1, y0, y1)[first.len() + i] == (cx as i32, cy as i32));
    }
}

/// A search does not overlook what it is meant to find: an id whose stored
/// rectangle intersects the query is in the bin of a cell that the query
/// touches, and so is visited, as long as neither rectangle has a negative
/// extent.
pub proof fn lemma_search_reaches<T: Copy + Eq + Hash>(grid: Grid<T>, rec: Rectangle, e: T)
    requires
        grid.wf(),
        grid@.contains_key(e),
        rec.bounded(),
        rec.width >= 0,
        rec.height >= 0,
        grid@[e].width >= 0,
        grid@[e].height >= 0,
        grid@[e].intersects(rec),
    ensures
        visits(grid.bins(), rec.cells(), e) >= 1,
{
    let own = grid@[e];
    assert(own.bounded());
    let px: int = if own.x >= rec.x {
        own.x as int
    } else {
        rec.x as int
    };
    let py: int = if own.y >= rec.y {
        own.y as int
    } else {
        rec.y as int
    };
    let cx = cell_of(px);
    let cy = cell_of(py);
    lemma_rows_reach(
        cell_of(own.x as int),
        cell_of(own.x + own.width) + 1,
        cell_of(own.y as int),
        cell_of(own.y + own.height) + 1,
        cx,
        cy,
    );
    lemma_rows_reach(
        cell_of(rec.x as int),
        cell_of(rec.x + rec.width) + 1,
        cell_of(rec.y as int),
        cell_of(rec.y + rec.height) + 1,
        cx,
        cy,
    );
    let i = choose|i: int|
        0 <= i < own.cells().len() && #[trigger] own.cells()[i] == (cx as i32, cy as i32);
    let j = choose|j: int|
        0 <= j < rec.cells().len() && #[trigger] rec.cells()[j] == (cx as i32, cy as i32);
    assert(holds(grid.bins(), own.cells()[i], e));
    assert(holds(grid.bins(), rec.cells()[j], e));
    lemma_visits_positive(grid.bins(), rec.cells(), e, j);
}

/// Whether `e` stands at one of the positions `pos`, `pos + 1`, ... of
/// `bin`, as a number: one if it does, zero if not.
pub open spec fn waits<T>(bin: Seq<T>, pos: int, e: T) -> nat {
    if exists|i: int| pos <= i < bin.len() && #[trigger] bin[i] == e {
        1
    } else {
        0
    }
}

impl<T: Copy + Eq + Hash> Grid<T> {
    /// Starts a search for the ids whose rectangle intersects `rec`. The
    /// search visits the bin of every cell that `rec` touches, one after the
    /// other, and in each bin every id that it holds.
    pub fn intersects(&self, rec: Rectangle) -> (it: Iter<T>)
        requires
            self.wf(),
            rec.bounded(),
        ensures
            it.wf(),
            it.source() == self@,
            it.query() == rec,
            forall|e: T| #[trigger] it.pending(e) == visits(self.bins(), rec.cells(), e),
    {
        Iter { grid: self, iter: rec.iter(), bin: Vec::new(), pos: 0, rec: rec }
    }
}

/// A search under way: the ids near a rectangle whose own rectangle
/// intersects it, handed out one at a time by [`Iter::next`]. An id that
/// sits in the bins of several of the cells looked at is handed out once
/// for each.
pub struct Iter<'a, T> {
    grid: &'a Grid<T>,
    rec: Rectangle,
    bin: Vec<T>,
    pos: usize,
    iter: RecIter,
}

impl<'a, T: Copy + Eq + Hash> Iter<'a, T> {
    /// The grid is well formed, the query can be compared with what is
    /// stored, and what is left of the current bin are ids of the grid, each
    /// once.
    pub closed spec fn wf(&self) -> bool {
        &&& self.grid.wf()
        &&& self.rec.bounded()
        &&& self.pos <= self.bin@.len()
        &&& self.bin@.no_duplicates()
        &&& forall|i: int| 0 <= i < self.bin@.len() ==> self.grid.eids@.contains_key(#[trigger] self.bin@[i])
    }

    /// The rectangles of the grid that is searched, by id.
    pub closed spec fn source(&self) -> Map<T, Rectangle> {
        self.grid@
    }

    /// The rectangle that is searched for.
    pub closed spec fn query(&self) -> Rectangle {
        self.rec
    }

    /// How many more times the search will come upon `e`: once if `e` is
    /// left in the current bin, and once for each cell still to come whose
    /// bin holds it.
    pub closed spec fn pending(&self, e: T) -> nat {
        waits(self.bin@, self.pos as int, e) + visits(self.grid.bins@, self.iter.remaining(), e)
    }

    /// Hands out the next id whose rectangle intersects the query, or `None`
    /// when there is no more. An id whose rectangle intersects the query is
    /// handed out every time the search comes upon it; the others are
    /// passed over.
    pub fn next(&mut self) -> (item: Option<T>)
        requires
            old(self).wf(),
        ensures
            final(self).wf(),
            final(self).source() == old(self).source(),
            final(self).query() == old(self).query(),
            match item {
                Some(e) => {
                    &&& old(self).source().contains_key(e)
                    &&& old(self).source()[e].intersects(old(self).query())
                    &&& old(self).pending(e) == final(self).pending(e) + 1
                },
                None => {
                    &&& forall|e: T| #[trigger] final(self).pending(e) == 0
                    &&& forall|e: T|
                        old(self).source().contains_key(e) && old(self).source()[e].intersects(
                            old(self).query(),
                        ) ==> #[trigger] old(self).pending(e) == 0
                },
            },
            forall|e: T|
                #![trigger final(self).pending(e)]
                #![trigger old(self).pending(e)]
                old(self).source().contains_key(e) && old(self).source()[e].intersects(
                    old(self).query(),
                ) && item != Some(e) ==> final(self).pending(e) == old(self).pending(e),
            forall|e: T|
                #![trigger final(self).pending(e)]
                #![trigger old(self).pending(e)]
                final(self).pending(e) <= old(self).pending(e),
    {
        broadcast use vstd::std_specs::hash::group_hash_axioms;

        let grid: &'a Grid<T> = self.grid;
        let rec = self.rec;
        let ghost store = grid.eids@;
        loop
            invariant
                self.grid == grid,
                self.rec == rec,
                grid == old(self).grid,
                rec == old(self).rec,
                store == grid.eids@,
                self.wf(),
                forall|e: T|
                    store.contains_key(e) && store[e].intersects(rec) ==> #[trigger] self.pending(e)
                        == old(self).pending(e),
                forall|e: T| #[trigger] self.pending(e) <= old(self).pending(e),
            decreases self.iter.remaining().len(), self.bin@.len() - self.pos,
        {
            let ghost ahead = self.iter.remaining();
            while self.pos < self.bin.len()
                invariant
                    self.iter.remaining() == ahead,
                    self.grid == grid,
                    self.rec == rec,
                    grid == old(self).grid,
                    rec == old(self).rec,
                    store == grid.eids@,
                    self.wf(),
                    forall|e: T|
                        store.contains_key(e) && store[e].intersects(rec) ==> #[trigger] self.pending(e)
                            == old(self).pending(e),
                    forall|e: T| #[trigger] self.pending(e) <= old(self).pending(e),
                decreases self.bin@.len() - self.pos,
            {
                let e: T = self.bin[self.pos];
                let ghost at = self.pos as int;
                let ghost bin = self.bin@;
                let ghost prev = *self;
                self.pos = self.pos + 1;
                proof {
                    assert(bin[at] == e);
                    assert(store.contains_key(bin[at]));
                    assert(waits(bin, at, e) == 1);
                    assert(waits(bin, at + 1, e) == 0);
                    assert forall|o: T| o != e implies waits(bin, at, o) == waits(bin, at + 1, o) by {
                        if exists|i: int| at <= i < bin.len() && #[trigger] bin[i] == o {
                            let i = choose|i: int| at <= i < bin.len() && #[trigger] bin[i] == o;
                            assert(at + 1 <= i < bin.len() && bin[i] == o);
                        }
                    }
                    assert forall|o: T| #[trigger] self.pending(o) == prev.pending(o) - (if o == e {
                        1int
                    } else {
                        0int
                    }) by {
                        assert(o != e ==> waits(bin, at, o) == waits(bin, at + 1, o));
                    }
                    assert(prev.pending(e) == old(self).pending(e) || !(store.contains_key(e)
                        && store[e].intersects(rec)));
                    assert forall|o: T| #[trigger]
                        self.pending(o) <= old(self).pending(o) by {
                        assert(prev.pending(o) <= old(self).pending(o));
                    }
                    assert forall|o: T|
                        store.contains_key(o) && store[o].intersects(rec) && o != e implies #[trigger] self.pending(
                        o,
                    ) == old(self).pending(o) by {
                        assert(prev.pending(o) == old(self).pending(o));
                    }
                }
                match grid.eids.get(&e) {
                    Some(stored) => {
                        if stored.intersects(rec) {
                            return Some(e);
                        }
                    },
                    None => {},
                }
            }

            let ghost prev = *self;
            match self.iter.next() {
                Some((x, y)) => {
                    let ghost spent = self.bin@;
                    let b = bin(x, y);
                    self.bin = members(&grid.bins[b]);
                    self.pos = 0;
                    proof {
                        let fresh = self.bin@;
                        assert forall|i: int| 0 <= i < fresh.len() implies store.contains_key(
                            #[trigger] fresh[i],
                        ) by {
                            assert(fresh.contains(fresh[i]));
                            assert(fresh.to_set().contains(fresh[i]));
                            assert(grid.bins@[b as int]@.contains(fresh[i]));
                        }
                        assert forall|e: T|
                            waits(spent, spent.len() as int, e) + visits(grid.bins@, ahead, e)
                                == waits(fresh, 0, e) + visits(
                                grid.bins@,
                                ahead.drop_first(),
                                e,
                            ) by {
                            assert(holds(grid.bins@, ahead[0], e) == fresh.to_set().contains(e));
                            if fresh.to_set().contains(e) {
                                assert(fresh.contains(e));
                                let i = choose|i: int| 0 <= i < fresh.len() && fresh[i] == e;
                                assert(0 <= i < fresh.len() && fresh[i] == e);
                            } else {
                                if exists|i: int| 0 <= i < fresh.len() && #[trigger] fresh[i] == e {
                                    let i = choose|i: int|
                                        0 <= i < fresh.len() && #[trigger] fresh[i] == e;
                                    assert(fresh.contains(fresh[i]));
                                }
                            }
                        }
                        assert forall|o: T| #[trigger] self.pending(o) == prev.pending(o) by {
                            assert(waits(spent, spent.len() as int, o) + visits(grid.bins@, ahead, o)
                                == waits(fresh, 0, o) + visits(grid.bins@, ahead.drop_first(), o));
                        }
                    }
                },
                None => {
                    proof {
                        assert forall|o: T| #[trigger] self.pending(o) == 0 && prev.pending(o) == 0 by {
                            assert(waits(self.bin@, self.pos as int, o) == 0);
                        }
                        assert forall|o: T|
                            store.contains_key(o) && store[o].intersects(rec) implies #[trigger] old(
                            self,
                        ).pending(o) == 0 by {
                            assert(prev.pending(o) == 0);
                        }
                    }
                    return None;
                },
            }
        }
    }
}

} // verus!
