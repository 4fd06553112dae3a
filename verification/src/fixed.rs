//! Fixed-point real numbers.
//!
//! Every physical quantity in the engine (temperature, field magnitude,
//! energy, spin projection) is a real number represented in fixed point:
//! a signed count of millionths. This keeps all of the simulation arithmetic
//! inside the integers, where each operation carries an exact contract.

use vstd::prelude::*;

verus! {

/// Number of fixed-point units that make up one real unit.
pub const SCALE: i64 = 1_000_000;

/// A real number stored as a signed count of millionths of a unit.
#[derive(Clone, Copy, Debug, PartialEq, Eq, Structural, Hash)]
pub struct Fixed {
    /// The value in millionths of a unit.
    pub units: i64,
}

impl Fixed {
    /// Build a fixed-point number from a raw count of millionths.
    pub fn from_units(units: i64) -> (r: Fixed)
        ensures
            r.units == units,
    {
        Fixed { units }
    }

    /// The number zero.
    pub fn zero() -> (r: Fixed)
        ensures
            r.units == 0,
    {
        Fixed { units: 0 }
    }

    /// The smallest positive fixed-point number; serves as the clamping
    /// threshold for quantities that must stay strictly positive.
    pub fn epsilon() -> (r: Fixed)
        ensures
            r.units == 1,
    {
        Fixed { units: 1 }
    }

    /// Build a fixed-point number from a whole number of units.
    pub fn from_int(v: i64) -> (r: Fixed)
        requires
            -9_000_000_000_000 <= v <= 9_000_000_000_000,
        ensures
            r.units == v * SCALE,
    {
        Fixed { units: v * SCALE }
    }

    /// The sum of two fixed-point numbers.
    pub fn add(self, other: Fixed) -> (r: Fixed)
        requires
            i64::MIN <= self.units + other.units <= i64::MAX,
        ensures
            r.units == self.units + other.units,
    {
        Fixed { units: self.units + other.units }
    }

    /// The difference of two fixed-point numbers.
    pub fn sub(self, other: Fixed) -> (r: Fixed)
        requires
            i64::MIN <= self.units - other.units <= i64::MAX,
        ensures
            r.units == self.units - other.units,
    {
        Fixed { units: self.units - other.units }
    }

    /// The additive inverse.
    pub fn neg(self) -> (r: Fixed)
        requires
            self.units != i64::MIN,
        ensures
            r.units == -self.units,
    {
        Fixed { units: -self.units }
    }

    /// The absolute value.
    pub fn abs(self) -> (r: Fixed)
        requires
            self.units != i64::MIN,
        ensures
            r.units == abs_int(self.units as int),
    {
        if self.units < 0 {
            Fixed { units: -self.units }
        } else {
            self
        }
    }

    /// Strictly less than.
    pub fn lt(self, other: Fixed) -> (r: bool)
        ensures
            r == (self.units < other.units),
    {
        self.units < other.units
    }

    /// Less than or equal.
    pub fn le(self, other: Fixed) -> (r: bool)
        ensures
            r == (self.units <= other.units),
    {
        self.units <= other.units
    }

    /// Strictly greater than.
    pub fn gt(self, other: Fixed) -> (r: bool)
        ensures
            r == (self.units > other.units),
    {
        self.units > other.units
    }

    /// Greater than or equal.
    pub fn ge(self, other: Fixed) -> (r: bool)
        ensures
            r == (self.units >= other.units),
    {
        self.units >= other.units
    }
}

/// The absolute value of a mathematical integer.
pub open spec fn abs_int(v: int) -> int {
    if v < 0 {
        -v
    } else {
        v
    }
}

/// Floor division of a 64-bit integer by a positive divisor. Agrees with the
/// mathematical (Euclidean) quotient, which rounds towards minus infinity.
pub fn div_floor64(a: i64, b: i64) -> (q: i64)
    requires
        b > 0,
        a > i64::MIN,
    ensures
        q == a as int / b as int,
{
    let q128 = div_floor128(a as i128, b as i128);
    proof {
        lemma_div_bounds(a as int, b as int);
    }
    q128 as i64
}

/// Floor division of a 128-bit integer by a positive divisor. Agrees with the
/// mathematical (Euclidean) quotient, which rounds towards minus infinity.
pub fn div_floor128(a: i128, b: i128) -> (q: i128)
    requires
        b > 0,
        a > i128::MIN,
    ensures
        q == a as int / b as int,
{
    if a >= 0 {
        let q0: u128 = (a as u128) / (b as u128);
        proof {
            lemma_div_bounds(a as int, b as int);
        }
        q0 as i128
    } else {
        let na: u128 = (-a) as u128;
        let q0: u128 = na / (b as u128);
        let r0: u128 = na % (b as u128);
        proof {
            vstd::arithmetic::div_mod::lemma_fundamental_div_mod(na as int, b as int);
            if r0 == 0 {
                assert(a as int == b as int * (-(q0 as int)) + 0) by (nonlinear_arith)
                    requires
                        na as int == b as int * (q0 as int) + r0 as int,
                        r0 == 0,
                        a as int == -(na as int),
                ;
                vstd::arithmetic::div_mod::lemma_fundamental_div_mod_converse(
                    a as int, b as int, -(q0 as int), 0);
            } else {
                assert(a as int == b as int * (-(q0 as int) - 1) + (b as int - r0 as int))
                    by (nonlinear_arith)
                    requires
                        na as int == b as int * (q0 as int) + r0 as int,
                        a as int == -(na as int),
                ;
                vstd::arithmetic::div_mod::lemma_fundamental_div_mod_converse(
                    a as int, b as int, -(q0 as int) - 1, b as int - r0 as int);
            }
            lemma_div_bounds(a as int, b as int);
        }
        if r0 == 0 {
            -(q0 as i128)
        } else {
            -(q0 as i128) - 1
        }
    }
}

/// A quotient stays within a cap when its numerator stays within the cap
/// times the divisor.
pub proof fn lemma_div_in_range(num: int, den: int, cap: int)
    requires
        den > 0,
        0 <= cap,
        -(cap * den) <= num <= cap * den,
    ensures
        -cap <= num / den <= cap,
{
    assert(cap * den == den * cap && -(cap * den) == den * (-cap)
        && -(cap * den) == (-cap) * den) by (nonlinear_arith);
    vstd::arithmetic::div_mod::lemma_fundamental_div_mod_converse(cap * den, den, cap, 0);
    vstd::arithmetic::div_mod::lemma_fundamental_div_mod_converse(-(cap * den), den, -cap, 0);
    vstd::arithmetic::div_mod::lemma_div_is_ordered(num, cap * den, den);
    vstd::arithmetic::div_mod::lemma_div_is_ordered(-(cap * den), num, den);
}

/// Dividing an exact multiple of a positive divisor recovers the factor.
pub proof fn lemma_div_exact(a: int, den: int)
    requires
        den > 0,
    ensures
        (a * den) / den == a,
{
    assert(a * den == den * a + 0) by (nonlinear_arith);
    vstd::arithmetic::div_mod::lemma_fundamental_div_mod_converse(a * den, den, a, 0);
}

/// The floor quotient of `a` by a positive `b` lies between `-|a|` and `|a|`.
pub proof fn lemma_div_bounds(a: int, b: int)
    requires
        b > 0,
    ensures
        a >= 0 ==> 0 <= a / b <= a,
        a < 0 ==> a <= a / b <= 0,
{
    if a >= 0 {
        vstd::arithmetic::div_mod::lemma_div_is_ordered_by_denominator(a, 1, b);
        vstd::arithmetic::div_mod::lemma_div_basics(a);
        vstd::arithmetic::div_mod::lemma_div_pos_is_pos(a, b);
    } else {
        vstd::arithmetic::div_mod::lemma_div_is_ordered(a, 0, b);
        assert(a / b >= a) by {
            vstd::arithmetic::div_mod::lemma_fundamental_div_mod(a, b);
            assert(a == b * (a / b) + a % b);
            assert(a / b >= a) by (nonlinear_arith)
                requires
                    b > 0,
                    a < 0,
                    a == b * (a / b) + a % b,
                    0 <= a % b,
            ;
        }
    }
}

} // verus!
