//! Movement of rectangles by fixed-point velocities.
//!
//! A rectangle sits on whole coordinates while its velocity is a fraction
//! of a unit per step. What a step does not use up is carried over to the
//! next one.

pub mod q8p24;
pub mod vector;

pub use self::q8p24::Q8p24;
pub use self::vector::Vector;

use vstd::prelude::*;
use vstd::std_specs::convert::FromSpec;
use crate::rtree::Point;
use crate::rtree::Rectangle;

verus! {

/// A velocity, and the fraction of a unit left over from earlier steps.
pub struct Movement {
    pub vector: Vector,
    remainder: Vector,
}

/// The rectangle `pos` moved by `dx` along x and `dy` along y.
pub open spec fn shifted(pos: Rectangle, dx: int, dy: int) -> Rectangle {
    Rectangle {
        min: Point { x: (pos.min.x + dx) as i16, y: (pos.min.y + dy) as i16 },
        max: Point { x: (pos.max.x + dx) as i16, y: (pos.max.y + dy) as i16 },
    }
}

impl Movement {
    /// The velocity: what is added in each step.
    pub closed spec fn velocity(&self) -> Vector {
        self.vector
    }

    /// The fraction carried over to the next step.
    pub closed spec fn remainder(&self) -> Vector {
        self.remainder
    }

    /// The carried fraction and the velocity, added up.
    pub open spec fn reach(&self) -> Vector {
        Vector {
            x: self.remainder().x.saturating_sum(self.velocity().x),
            y: self.remainder().y.saturating_sum(self.velocity().y),
        }
    }

    /// The whole units that the next step moves by, along x and along y.
    pub open spec fn stride(&self) -> (int, int) {
        (self.reach().x.0 / 0x0100_0000, self.reach().y.0 / 0x0100_0000)
    }

    /// The next step keeps all four coordinates of `pos` in range.
    pub open spec fn spec_fits(&self, pos: Rectangle) -> bool {
        let (dx, dy) = self.stride();
        &&& i16::MIN <= pos.min.x + dx <= i16::MAX
        &&& i16::MIN <= pos.min.y + dy <= i16::MAX
        &&& i16::MIN <= pos.max.x + dx <= i16::MAX
        &&& i16::MIN <= pos.max.y + dy <= i16::MAX
    }

    /// create a new movement vector
    pub fn new<T>(x: T, y: T) -> (m: Movement) where Q8p24: From<T>
        ensures
            m.remainder() == (Vector { x: Q8p24(0), y: Q8p24(0) }),
            <Q8p24 as FromSpec<T>>::obeys_from_spec() ==> m.velocity() == (Vector {
                x: <Q8p24 as FromSpec<T>>::from_spec(x),
                y: <Q8p24 as FromSpec<T>>::from_spec(y),
            }),
    {
        Movement { vector: Vector::from((x, y)), remainder: Vector::from((0i8, 0i8)) }
    }

    /// Whether [`Movement::next`] may be called for `pos`.
    #[verifier::when_used_as_spec(spec_fits)]
    pub fn fits(&self, pos: Rectangle) -> (ok: bool)
        ensures
            ok == self.spec_fits(pos),
    {
        let sum = self.remainder + self.vector;
        let rem = sum.trunc();
        let x: i8 = i8::from(rem.x);
        let y: i8 = i8::from(rem.y);
        let min_x: i32 = pos.min.x as i32 + x as i32;
        let min_y: i32 = pos.min.y as i32 + y as i32;
        let max_x: i32 = pos.max.x as i32 + x as i32;
        let max_y: i32 = pos.max.y as i32 + y as i32;
        -32768 <= min_x && min_x <= 32767 && -32768 <= min_y && min_y <= 32767 && -32768 <= max_x
            && max_x <= 32767 && -32768 <= max_y && max_y <= 32767
    }

    // take a rectangle and move it based on the remainder
    /// Moves `pos` by the whole units in the velocity plus what was carried
    /// over, and carries the new fraction over. Along an axis on which the
    /// velocity is zero nothing is carried over.
    pub fn next(&mut self, pos: Rectangle) -> (moved: Rectangle)
        requires
            old(self).fits(pos),
        ensures
            moved == shifted(pos, old(self).stride().0, old(self).stride().1),
            final(self).velocity() == old(self).velocity(),
            final(self).remainder().x == (if old(self).velocity().x.0 == 0 {
                Q8p24(0)
            } else {
                old(self).reach().x.fract()
            }),
            final(self).remainder().y == (if old(self).velocity().y.0 == 0 {
                Q8p24(0)
            } else {
                old(self).reach().y.fract()
            }),
    {
        let mut pos = pos;
        let sum = self.remainder + self.vector;
        let rem = sum.trunc();
        self.remainder = sum.fract();

        if self.vector.x == Q8p24(0) {
            self.remainder.x = Q8p24(0);
        }
        if self.vector.y == Q8p24(0) {
            self.remainder.y = Q8p24(0);
        }

        let x: i8 = i8::from(rem.x);
        let y: i8 = i8::from(rem.y);
        pos.min.x = pos.min.x + x as i16;
        pos.min.y = pos.min.y + y as i16;
        pos.max.x = pos.max.x + x as i16;
        pos.max.y = pos.max.y + y as i16;
        pos
    }
}

/// The whole part of a number, read as an integer, is the number rounded
/// down.
pub proof fn lemma_whole_part(q: Q8p24)
    ensures
        q.trunc().0 / 0x0100_0000 == q.0 / 0x0100_0000,
        -128 <= q.0 / 0x0100_0000 <= 127,
{
}

/// A number is the sum of its whole part and its fractional part.
pub proof fn lemma_trunc_plus_fract(q: Q8p24)
    ensures
        q.trunc().0 + q.fract().0 == q.0,
        0 <= q.fract().0 < 0x0100_0000,
        q.trunc().0 % 0x0100_0000 == 0,
{
}

} // verus!
