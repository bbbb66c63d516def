//! Pairs of fixed-point numbers.

use vstd::prelude::*;
use vstd::std_specs::convert::FromSpec;
use crate::movement::q8p24::Q8p24;

verus! {

/// A displacement or velocity in the plane.
#[derive(Copy, Clone, Debug)]
pub struct Vector {
    pub x: Q8p24,
    pub y: Q8p24,
}

impl Vector {
    /// The whole parts of both components.
    pub open spec fn spec_trunc(self) -> Vector {
        Vector { x: self.x.trunc(), y: self.y.trunc() }
    }

    /// The fractional parts of both components.
    pub open spec fn spec_fract(self) -> Vector {
        Vector { x: self.x.fract(), y: self.y.fract() }
    }

    /// Create a new vecotr
    pub fn new(x: Q8p24, y: Q8p24) -> (v: Vector)
        ensures
            v == (Vector { x, y }),
    {
        Vector { x: x, y: y }
    }

    /// truncate any of the values below the decimal point
    #[verifier::when_used_as_spec(spec_trunc)]
    pub fn trunc(self) -> (v: Vector)
        ensures
            v == self.spec_trunc(),
    {
        Vector { x: self.x.trunc(), y: self.y.trunc() }
    }

    /// give only the points beyond the decimal point
    #[verifier::when_used_as_spec(spec_fract)]
    pub fn fract(self) -> (v: Vector)
        ensures
            v == self.spec_fract(),
    {
        Vector { x: self.x.fract(), y: self.y.fract() }
    }
}

impl core::ops::Add for Vector {
    type Output = Vector;

    fn add(self, rhs: Vector) -> (sum: Vector) {
        Vector { x: self.x + rhs.x, y: self.y + rhs.y }
    }
}

impl vstd::std_specs::ops::AddSpecImpl for Vector {
    open spec fn obeys_add_spec() -> bool {
        true
    }

    open spec fn add_req(self, rhs: Vector) -> bool {
        true
    }

    open spec fn add_spec(self, rhs: Vector) -> Vector {
        Vector { x: self.x.saturating_sum(rhs.x), y: self.y.saturating_sum(rhs.y) }
    }
}

impl core::ops::Sub for Vector {
    type Output = Vector;

    fn sub(self, rhs: Vector) -> (difference: Vector) {
        Vector { x: self.x - rhs.x, y: self.y - rhs.y }
    }
}

impl vstd::std_specs::ops::SubSpecImpl for Vector {
    open spec fn obeys_sub_spec() -> bool {
        true
    }

    open spec fn sub_req(self, rhs: Vector) -> bool {
        true
    }

    open spec fn sub_spec(self, rhs: Vector) -> Vector {
        Vector {
            x: self.x.saturating_difference(rhs.x),
            y: self.y.saturating_difference(rhs.y),
        }
    }
}

impl<T> From<(T, T)> for Vector where Q8p24: From<T> {
    /// The vector whose components are the two converted values.
    fn from(pair: (T, T)) -> (v: Vector) {
        let (x, y) = pair;
        Vector::new(Q8p24::from(x), Q8p24::from(y))
    }
}

impl<T> vstd::std_specs::convert::FromSpecImpl<(T, T)> for Vector where Q8p24: From<T> {
    open spec fn obeys_from_spec() -> bool {
        <Q8p24 as FromSpec<T>>::obeys_from_spec()
    }

    open spec fn from_spec(pair: (T, T)) -> Vector {
        Vector {
            x: <Q8p24 as FromSpec<T>>::from_spec(pair.0),
            y: <Q8p24 as FromSpec<T>>::from_spec(pair.1),
        }
    }
}

} // verus!
