//! The texture of the ground: a grey tile with a dark line along two edges.

use vstd::prelude::*;

verus! {

/// The grey level of the texel in column `ix` and row `iy`: dark in the
/// first column and in the first row, mid-grey elsewhere.
pub open spec fn texel_level(ix: int, iy: int) -> u8 {
    if ix == 0 || iy == 0 {
        0
    } else {
        128
    }
}

/// The byte at position `at` of an RGBA texture of `x` columns and `y`
/// rows, stored column by column, four bytes to the texel.
pub open spec fn texture_byte(y: int, at: int) -> u8 {
    if at % 4 == 3 {
        255
    } else {
        texel_level((at / 4) / y, (at / 4) % y)
    }
}

/// The bytes of an opaque RGBA texture of `x` columns and `y` rows.
pub fn build_texture(x: u16, y: u16) -> (out: Vec<u8>)
    ensures
        out@.len() == x * y * 4,
        forall|at: int| 0 <= at < out@.len() ==> out@[at] == texture_byte(y as int, at),
{
    let mut out: Vec<u8> = Vec::new();
    for ix in 0..x
        invariant
            out@.len() == ix * y * 4,
            forall|at: int| 0 <= at < out@.len() ==> out@[at] == texture_byte(y as int, at),
    {
        for iy in 0..y
            invariant
                ix < x,
                out@.len() == (ix * y + iy) * 4,
                forall|at: int| 0 <= at < out@.len() ==> out@[at] == texture_byte(y as int, at),
        {
            let edge = ix == 0 || x == (ix - 1) || iy == 0 || y == (iy - 1);
            let color: u8 = if edge {
                0
            } else {
                128
            };
            proof {
                assert((ix * y + iy) / (y as int) == ix && (ix * y + iy) % (y as int) == iy)
                    by (nonlinear_arith)
                    requires
                        0 <= iy < y,
                        0 <= ix,
                ;
            }
            out.push(color);
            out.push(color);
            out.push(color);
            out.push(255);
        }
        proof {
            assert((ix * y + y) * 4 == (ix + 1) * y * 4) by (nonlinear_arith);
        }
    }
    out
}

} // verus!
