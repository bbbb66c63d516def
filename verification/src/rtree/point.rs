//! Points of the plane and their Z-order (Morton) keys.

use vstd::prelude::*;

verus! {

/// A point of the plane with signed 16-bit coordinates.
#[derive(Debug, Copy, Clone, Hash, PartialEq, Eq, PartialOrd, Ord, Structural)]
pub struct Point {
    pub x: i16,
    pub y: i16,
}

/// The Z-order key of a point: the bits of the two biased coordinates,
/// interleaved, with `x` on the even bits and `y` on the odd bits.
#[derive(Debug, Copy, Clone, Hash, PartialEq, Eq, PartialOrd, Ord, Structural)]
pub struct MortonPoint(pub u32);

/// The low 16 bits of `v`, each moved from position `i` to position `2 * i`.
pub open spec fn spread_bits(v: u32) -> u32 {
    (v & 0x0001) | ((v & 0x0002) << 1) | ((v & 0x0004) << 2) | ((v & 0x0008) << 3)
        | ((v & 0x0010) << 4) | ((v & 0x0020) << 5) | ((v & 0x0040) << 6) | ((v & 0x0080) << 7)
        | ((v & 0x0100) << 8) | ((v & 0x0200) << 9) | ((v & 0x0400) << 10) | ((v & 0x0800) << 11)
        | ((v & 0x1000) << 12) | ((v & 0x2000) << 13) | ((v & 0x4000) << 14) | ((v & 0x8000) << 15)
}

/// The even bits of `v`, each moved from position `2 * i` to position `i`.
pub open spec fn gather_bits(v: u32) -> u32 {
    (v & 0x0001) | ((v >> 1) & 0x0002) | ((v >> 2) & 0x0004) | ((v >> 3) & 0x0008)
        | ((v >> 4) & 0x0010) | ((v >> 5) & 0x0020) | ((v >> 6) & 0x0040) | ((v >> 7) & 0x0080)
        | ((v >> 8) & 0x0100) | ((v >> 9) & 0x0200) | ((v >> 10) & 0x0400) | ((v >> 11) & 0x0800)
        | ((v >> 12) & 0x1000) | ((v >> 13) & 0x2000) | ((v >> 14) & 0x4000) | ((v >> 15) & 0x8000)
}

/// A signed coordinate moved into `0 ..= 65535` by adding `2^15`.
pub open spec fn bias(v: i16) -> u32 {
    (v + 0x8000) as u32
}

/// The signed coordinate that `bias` maps to the low 16 bits of `v`.
pub open spec fn unbias(v: u32) -> i16 {
    ((v & 0xffff) - 0x8000) as i16
}

/// The Z-order key of `p`.
pub open spec fn morton_encode(p: Point) -> u32 {
    spread_bits(bias(p.x)) | (spread_bits(bias(p.y)) << 1)
}

/// The point whose Z-order key is `key`.
pub open spec fn morton_decode(key: u32) -> Point {
    Point { x: unbias(gather_bits(key)), y: unbias(gather_bits(key >> 1)) }
}

/// Spreads a 16-bit value over the even bits of a word.
fn interleave(x: u32) -> (r: u32)
    requires
        x <= 0xffff,
    ensures
        r == spread_bits(x),
{
    let a: u32 = (x | (x << 8)) & 0x00ff_00ff;
    let b: u32 = (a | (a << 4)) & 0x0f0f_0f0f;
    let c: u32 = (b | (b << 2)) & 0x3333_3333;
    let d: u32 = (c | (c << 1)) & 0x5555_5555;
    assert(d == spread_bits(x)) by (bit_vector)
        requires
            x <= 0xffff,
            a == (x | (x << 8)) & 0x00ff_00ff,
            b == (a | (a << 4)) & 0x0f0f_0f0f,
            c == (b | (b << 2)) & 0x3333_3333,
            d == (c | (c << 1)) & 0x5555_5555,
    ;
    d
}

/// Collects the even bits of a word into its low 16 bits.
fn deinterleave(x: u32) -> (r: u32)
    ensures
        r == gather_bits(x),
        r <= 0xffff,
{
    let a: u32 = x & 0x5555_5555;
    let b: u32 = (a | (a >> 1)) & 0x3333_3333;
    let c: u32 = (b | (b >> 2)) & 0x0f0f_0f0f;
    let d: u32 = (c | (c >> 4)) & 0x00ff_00ff;
    let e: u32 = (d | (d >> 8)) & 0x0000_ffff;
    assert(e == gather_bits(x) && e <= 0xffff) by (bit_vector)
        requires
            a == x & 0x5555_5555,
            b == (a | (a >> 1)) & 0x3333_3333,
            c == (b | (b >> 2)) & 0x0f0f_0f0f,
            d == (c | (c >> 4)) & 0x00ff_00ff,
            e == (d | (d >> 8)) & 0x0000_ffff,
    ;
    e
}

impl Point {
    /// Create a new point
    pub fn new(x: i16, y: i16) -> (p: Point)
        ensures
            p == (Point { x, y }),
    {
        Point { x: x, y: y }
    }
}

impl From<Point> for MortonPoint {
    /// Encodes a point as its Z-order key.
    fn from(p: Point) -> (key: MortonPoint) {
        let x: u32 = (p.x as i32 + 0x8000) as u32;
        let y: u32 = (p.y as i32 + 0x8000) as u32;
        let ix: u32 = interleave(x);
        let iy: u32 = interleave(y);
        MortonPoint(ix | iy << 1)
    }
}

impl vstd::std_specs::convert::FromSpecImpl<Point> for MortonPoint {
    open spec fn obeys_from_spec() -> bool {
        true
    }

    open spec fn from_spec(p: Point) -> MortonPoint {
        MortonPoint(morton_encode(p))
    }
}

impl From<MortonPoint> for Point {
    /// Decodes a Z-order key into the point it stands for.
    fn from(p: MortonPoint) -> (point: Point) {
        let x: u32 = deinterleave(p.0);
        let y: u32 = deinterleave(p.0 >> 1);
        assert(x & 0xffff == x) by (bit_vector)
            requires
                x <= 0xffff,
        ;
        assert(y & 0xffff == y) by (bit_vector)
            requires
                y <= 0xffff,
        ;
        Point { x: (x as i32 - 0x8000) as i16, y: (y as i32 - 0x8000) as i16 }
    }
}

impl vstd::std_specs::convert::FromSpecImpl<MortonPoint> for Point {
    open spec fn obeys_from_spec() -> bool {
        true
    }

    open spec fn from_spec(p: MortonPoint) -> Point {
        morton_decode(p.0)
    }
}

/// Decoding undoes encoding: every point is recovered exactly from its key.
pub proof fn lemma_decode_encode(p: Point)
    ensures
        morton_decode(morton_encode(p)) == p,
{
    let bx = bias(p.x);
    let by = bias(p.y);
    assert(gather_bits(spread_bits(bx) | (spread_bits(by) << 1)) == bx && gather_bits(
        (spread_bits(bx) | (spread_bits(by) << 1)) >> 1,
    ) == by && bx & 0xffff == bx && by & 0xffff == by) by (bit_vector)
        requires
            bx <= 0xffff,
            by <= 0xffff,
    ;
}

/// Encoding undoes decoding: every 32-bit key is the key of exactly the
/// point it decodes to.
pub proof fn lemma_encode_decode(key: u32)
    ensures
        morton_encode(morton_decode(key)) == key,
{
    let gx = gather_bits(key);
    let gy = gather_bits(key >> 1);
    assert(gx <= 0xffff && gy <= 0xffff && gx & 0xffff == gx && gy & 0xffff == gy && (spread_bits(
        gx,
    ) | (spread_bits(gy) << 1)) == key) by (bit_vector)
        requires
            gx == gather_bits(key),
            gy == gather_bits(key >> 1),
    ;
}

} // verus!
