//! Fixed-point numbers with 8 integer bits and 24 fractional bits.

use vstd::prelude::*;

verus! {

/// The raw value that stands for the number one.
pub const FIXED_POINT: i32 = 0x0100_0000;

/// a int with 8 bits and 24 fixed point
///
/// The raw value `r` stands for the number `r / 2^24`.
#[derive(Debug, Copy, Clone, PartialEq, Eq, PartialOrd, Ord, Structural)]
pub struct Q8p24(pub i32);

/// `v` brought into the range of `i32` by cutting it off at either end.
pub open spec fn saturate(v: int) -> i32 {
    if v > i32::MAX {
        i32::MAX
    } else if v < i32::MIN {
        i32::MIN
    } else {
        v as i32
    }
}

/// `v` brought into the range of `i32` by keeping its low 32 bits.
pub open spec fn wrap(v: int) -> i32 {
    ((v + 0x8000_0000) % 0x1_0000_0000 - 0x8000_0000) as i32
}

impl Q8p24 {
    /// The whole part: the number rounded down to an integer.
    pub open spec fn spec_trunc(self) -> Q8p24 {
        Q8p24((self.0 - self.0 % 0x0100_0000) as i32)
    }

    /// The fractional part: what rounding down takes away, from zero up to,
    /// but not including, one.
    pub open spec fn spec_fract(self) -> Q8p24 {
        Q8p24((self.0 % 0x0100_0000) as i32)
    }

    /// get the value without the fractional bits
    #[verifier::when_used_as_spec(spec_trunc)]
    pub fn trunc(self) -> (r: Q8p24)
        ensures
            r == self.spec_trunc(),
    {
        let v: i32 = self.0;
        assert(v & !0x00ff_ffffi32 == v - v % 0x0100_0000) by (bit_vector);
        Q8p24(self.0 & !(FIXED_POINT - 1))
    }

    /// get the fractional bits
    #[verifier::when_used_as_spec(spec_fract)]
    pub fn fract(self) -> (r: Q8p24)
        ensures
            r == self.spec_fract(),
    {
        let v: i32 = self.0;
        assert(v & 0x00ff_ffffi32 == v % 0x0100_0000) by (bit_vector);
        Q8p24(self.0 & (FIXED_POINT - 1))
    }
}

/// The quotient of `a` by `b`, rounded toward zero.
pub open spec fn toward_zero(a: int, b: int) -> int {
    if a >= 0 && b > 0 {
        a / b
    } else if a < 0 && b > 0 {
        -((-a) / b)
    } else if a >= 0 && b < 0 {
        -(a / (-b))
    } else {
        (-a) / (-b)
    }
}

impl Q8p24 {
    /// The quotient of the two numbers, rounded toward zero to a multiple
    /// of `2^-24`, of which the low 32 bits are kept.
    pub open spec fn quotient(self, rhs: Q8p24) -> Q8p24 {
        Q8p24(wrap(toward_zero(self.0 * 0x0100_0000, rhs.0 as int)))
    }

    /// The sum, cut off at the ends of the range.
    pub open spec fn saturating_sum(self, rhs: Q8p24) -> Q8p24 {
        Q8p24(saturate(self.0 + rhs.0))
    }

    /// The difference, cut off at the ends of the range.
    pub open spec fn saturating_difference(self, rhs: Q8p24) -> Q8p24 {
        Q8p24(saturate(self.0 - rhs.0))
    }

    /// The product of the two numbers, rounded down to a multiple of
    /// `2^-24`, of which the low 32 bits are kept.
    pub open spec fn product(self, rhs: Q8p24) -> Q8p24 {
        Q8p24(wrap((self.0 * rhs.0) / 0x0100_0000))
    }
}

impl core::ops::Add for Q8p24 {
    type Output = Q8p24;

    fn add(self, rhs: Q8p24) -> (sum: Q8p24) {
        let wide: i64 = self.0 as i64 + rhs.0 as i64;
        if wide > i32::MAX as i64 {
            Q8p24(i32::MAX)
        } else if wide < i32::MIN as i64 {
            Q8p24(i32::MIN)
        } else {
            Q8p24(wide as i32)
        }
    }
}

impl vstd::std_specs::ops::AddSpecImpl for Q8p24 {
    open spec fn obeys_add_spec() -> bool {
        true
    }

    open spec fn add_req(self, rhs: Q8p24) -> bool {
        true
    }

    open spec fn add_spec(self, rhs: Q8p24) -> Q8p24 {
        self.saturating_sum(rhs)
    }
}

impl core::ops::Sub for Q8p24 {
    type Output = Q8p24;

    fn sub(self, rhs: Q8p24) -> (difference: Q8p24) {
        let wide: i64 = self.0 as i64 - rhs.0 as i64;
        if wide > i32::MAX as i64 {
            Q8p24(i32::MAX)
        } else if wide < i32::MIN as i64 {
            Q8p24(i32::MIN)
        } else {
            Q8p24(wide as i32)
        }
    }
}

impl vstd::std_specs::ops::SubSpecImpl for Q8p24 {
    open spec fn obeys_sub_spec() -> bool {
        true
    }

    open spec fn sub_req(self, rhs: Q8p24) -> bool {
        true
    }

    open spec fn sub_spec(self, rhs: Q8p24) -> Q8p24 {
        self.saturating_difference(rhs)
    }
}

impl core::ops::Mul for Q8p24 {
    type Output = Q8p24;

    fn mul(self, rhs: Q8p24) -> (product: Q8p24) {
        let a: i64 = self.0 as i64;
        let b: i64 = rhs.0 as i64;
        assert(-0x4000_0000_0000_0000 < a * b <= 0x4000_0000_0000_0000) by (nonlinear_arith)
            requires
                -0x8000_0000 <= a <= 0x7fff_ffff,
                -0x8000_0000 <= b <= 0x7fff_ffff,
        ;
        let temp: i64 = a * b;
        let shifted: i64 = temp >> 24;
        assert(shifted == temp / 0x0100_0000) by (bit_vector)
            requires
                shifted == temp >> 24,
        ;
        let low: i32 = #[verifier::truncate] (shifted as i32);
        assert(low == wrap(shifted as int)) by (bit_vector)
            requires
                low == shifted as i32,
        ;
        Q8p24(low)
    }
}

impl vstd::std_specs::ops::MulSpecImpl for Q8p24 {
    open spec fn obeys_mul_spec() -> bool {
        true
    }

    open spec fn mul_req(self, rhs: Q8p24) -> bool {
        true
    }

    open spec fn mul_spec(self, rhs: Q8p24) -> Q8p24 {
        self.product(rhs)
    }
}

impl core::ops::Div for Q8p24 {
    type Output = Q8p24;

    fn div(self, rhs: Q8p24) -> (quotient: Q8p24) {
        let a: i64 = (self.0 as i64) * (FIXED_POINT as i64);
        let b: i64 = rhs.0 as i64;
        assert(a == self.0 * 0x0100_0000);
        let above: i64 = if a < 0 {
            -a
        } else {
            a
        };
        let below: i64 = if b < 0 {
            -b
        } else {
            b
        };
        let size: i64 = above / below;
        let temp: i64 = if (a < 0) != (b < 0) {
            -size
        } else {
            size
        };
        let low: i32 = #[verifier::truncate] (temp as i32);
        assert(low == wrap(temp as int)) by (bit_vector)
            requires
                low == temp as i32,
        ;
        Q8p24(low)
    }
}

impl vstd::std_specs::ops::DivSpecImpl for Q8p24 {
    open spec fn obeys_div_spec() -> bool {
        true
    }

    open spec fn div_req(self, rhs: Q8p24) -> bool {
        rhs.0 != 0
    }

    open spec fn div_spec(self, rhs: Q8p24) -> Q8p24 {
        self.quotient(rhs)
    }
}

impl From<i8> for Q8p24 {
    /// The fixed-point number equal to an integer.
    fn from(f: i8) -> (q: Q8p24) {
        let wide: i32 = f as i32;
        assert(wide << 24 == wide * 0x0100_0000) by (bit_vector)
            requires
                -128 <= wide <= 127,
        ;
        Q8p24((f as i32) << 24)
    }
}

impl vstd::std_specs::convert::FromSpecImpl<i8> for Q8p24 {
    open spec fn obeys_from_spec() -> bool {
        true
    }

    open spec fn from_spec(f: i8) -> Q8p24 {
        Q8p24((f * 0x0100_0000) as i32)
    }
}

impl From<Q8p24> for i8 {
    /// The number rounded down to an integer.
    fn from(f: Q8p24) -> (whole: i8) {
        let v: i32 = f.0;
        assert(v >> 24 == v / 0x0100_0000 && -128 <= (v >> 24) <= 127) by (bit_vector);
        (f.0 >> 24) as i8
    }
}

impl vstd::std_specs::convert::FromSpecImpl<Q8p24> for i8 {
    open spec fn obeys_from_spec() -> bool {
        true
    }

    open spec fn from_spec(f: Q8p24) -> i8 {
        (f.0 / 0x0100_0000) as i8
    }
}

} // verus!
