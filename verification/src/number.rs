//! Double-precision numbers by their IEEE 754 encoding.
//!
//! A [`Double`] carries the 64 bits of a binary64 value. What the bits mean is
//! stated once, in integers: every finite double is a whole multiple of the
//! smallest positive one, two to the power of -1074, and [`Double::units`] is
//! that multiple. The comparisons of this module are computed on the bits and
//! proved to order the numbers by that value.

use vstd::prelude::*;
use vstd::arithmetic::power2::{
    pow2,
    lemma2_to64,
    lemma_pow2_pos,
    lemma_pow2_strictly_increases,
    lemma_pow2_unfold,
};
use vstd::arithmetic::mul::{lemma_mul_strict_inequality, lemma_mul_inequality};

verus! {

/// The sign bit of the encoding.
pub const SIGN_BIT: u64 = 0x8000_0000_0000_0000;

/// The encoding of positive infinity; a larger magnitude is not a number.
pub const INFINITY_BITS: u64 = 0x7ff0_0000_0000_0000;

/// Two to the power of 52: the hidden bit of a normal significand, and the
/// weight of the exponent field within the magnitude.
pub const HIDDEN_BIT: u64 = 0x10_0000_0000_0000;

/// A double-precision number, held as the bits of its encoding.
#[derive(Clone, Copy, Debug)]
pub struct Double {
    pub bits: u64,
}

/// The value of the whole number `n`, in units of two to the power of -1074.
pub open spec fn whole(n: int) -> int {
    n * pow2(1074)
}

impl Double {
    /// Whether the sign bit is set.
    pub open spec fn negative(self) -> bool {
        self.bits >= SIGN_BIT
    }

    /// The encoding without its sign bit.
    pub open spec fn magnitude(self) -> int {
        if self.bits >= SIGN_BIT {
            self.bits - SIGN_BIT
        } else {
            self.bits as int
        }
    }

    /// The biased exponent field, 0 to 2047.
    pub open spec fn exponent(self) -> int {
        self.magnitude() / (HIDDEN_BIT as int)
    }

    /// The fraction field, below two to the power of 52.
    pub open spec fn fraction(self) -> int {
        self.magnitude() % (HIDDEN_BIT as int)
    }

    /// Not a number: the exponent field is all ones and the fraction is not zero.
    pub open spec fn nan(self) -> bool {
        self.magnitude() > INFINITY_BITS
    }

    /// Positive or negative infinity.
    pub open spec fn infinite(self) -> bool {
        self.magnitude() == INFINITY_BITS
    }

    /// A zero, a subnormal or a normal number.
    pub open spec fn finite(self) -> bool {
        self.magnitude() < INFINITY_BITS
    }

    /// The significand as a whole number: the fraction, with the hidden bit
    /// in front where the exponent field is not zero.
    pub open spec fn significand(self) -> int {
        if self.exponent() == 0 {
            self.fraction()
        } else {
            HIDDEN_BIT + self.fraction()
        }
    }

    /// The power of two that scales the significand, counted from -1074.
    pub open spec fn scale(self) -> nat {
        if self.exponent() == 0 {
            0
        } else {
            (self.exponent() - 1) as nat
        }
    }

    /// The absolute value in units of two to the power of -1074. The same
    /// formula sends an infinity to two to the power of 2098, which lies
    /// above every finite value.
    pub open spec fn abs_units(self) -> int {
        self.significand() * pow2(self.scale())
    }

    /// The value in units of two to the power of -1074. It is meant for
    /// numbers; an infinity stands beyond every finite value on its side.
    pub open spec fn units(self) -> int {
        if self.negative() {
            -self.abs_units()
        } else {
            self.abs_units()
        }
    }

    /// `self < other` as IEEE 754 orders them: false where either is not a
    /// number, else by value, so that the two zeros are equal.
    pub open spec fn below(self, other: Double) -> bool {
        !self.nan() && !other.nan() && self.units() < other.units()
    }

    /// `self <= other` as IEEE 754 orders them: false where either is not a
    /// number.
    pub open spec fn at_most(self, other: Double) -> bool {
        !self.nan() && !other.nan() && self.units() <= other.units()
    }

    /// The greater of two values, where a value that is not a number gives
    /// way to the other. Of two equal values it is the first.
    pub open spec fn greater(self, other: Double) -> Double {
        if self.nan() {
            other
        } else if other.nan() {
            self
        } else if self.units() < other.units() {
            other
        } else {
            self
        }
    }

    /// The lesser of two values, where a value that is not a number gives
    /// way to the other. Of two equal values it is the first.
    pub open spec fn lesser(self, other: Double) -> Double {
        if self.nan() {
            other
        } else if other.nan() {
            self
        } else if other.units() < self.units() {
            other
        } else {
            self
        }
    }

    /// The number with the given encoding.
    pub fn from_bits(bits: u64) -> (d: Double)
        ensures
            d.bits == bits,
    {
        Double { bits }
    }

    /// The encoding of the number.
    pub fn to_bits(self) -> (bits: u64)
        ensures
            bits == self.bits,
    {
        self.bits
    }

    /// The encoding without its sign bit.
    fn magnitude_bits(self) -> (m: u64)
        ensures
            m == self.magnitude(),
    {
        if self.bits >= SIGN_BIT {
            self.bits - SIGN_BIT
        } else {
            self.bits
        }
    }

    /// Whether the value is not a number.
    pub fn is_nan(self) -> (r: bool)
        ensures
            r == self.nan(),
    {
        self.magnitude_bits() > INFINITY_BITS
    }

    /// `self < other`, false where either is not a number.
    pub fn lt(self, other: Double) -> (r: bool)
        ensures
            r == self.below(other),
    {
        if self.is_nan() || other.is_nan() {
            return false;
        }
        let a: u64 = self.magnitude_bits();
        let b: u64 = other.magnitude_bits();
        proof {
            lemma_abs_units_order(self, other);
            lemma_abs_units_order(other, self);
        }
        if self.bits >= SIGN_BIT {
            if other.bits >= SIGN_BIT {
                b < a
            } else {
                a > 0 || b > 0
            }
        } else {
            if other.bits >= SIGN_BIT {
                false
            } else {
                a < b
            }
        }
    }

    /// The greater of two values, ignoring one that is not a number.
    pub fn max(self, other: Double) -> (r: Double)
        ensures
            r == self.greater(other),
    {
        if self.is_nan() {
            other
        } else if other.is_nan() {
            self
        } else if self.lt(other) {
            other
        } else {
            self
        }
    }

    /// The lesser of two values, ignoring one that is not a number.
    pub fn min(self, other: Double) -> (r: Double)
        ensures
            r == self.lesser(other),
    {
        if self.is_nan() {
            other
        } else if other.is_nan() {
            self
        } else if other.lt(self) {
            other
        } else {
            self
        }
    }

    /// `self <= other`, false where either is not a number.
    pub fn le(self, other: Double) -> (r: bool)
        ensures
            r == self.at_most(other),
    {
        if self.is_nan() || other.is_nan() {
            return false;
        }
        let a: u64 = self.magnitude_bits();
        let b: u64 = other.magnitude_bits();
        proof {
            lemma_abs_units_order(self, other);
            lemma_abs_units_order(other, self);
        }
        if self.bits >= SIGN_BIT {
            if other.bits >= SIGN_BIT {
                b <= a
            } else {
                true
            }
        } else {
            if other.bits >= SIGN_BIT {
                a == 0 && b == 0
            } else {
                a <= b
            }
        }
    }
}

/// The absolute value grows strictly with the magnitude of the encoding, and
/// is zero for the magnitude zero alone.
pub proof fn lemma_abs_units_order(a: Double, b: Double)
    ensures
        a.abs_units() >= 0,
        a.magnitude() == 0 <==> a.abs_units() == 0,
        a.magnitude() < b.magnitude() ==> a.abs_units() < b.abs_units(),
        a.magnitude() == b.magnitude() ==> a.abs_units() == b.abs_units(),
{
    lemma_abs_units_positive(a);
    if a.magnitude() < b.magnitude() {
        lemma_abs_units_increasing(a, b);
    }
}

proof fn lemma_abs_units_positive(a: Double)
    ensures
        a.abs_units() >= 0,
        a.magnitude() == 0 <==> a.abs_units() == 0,
{
    let p = pow2(a.scale()) as int;
    lemma_pow2_pos(a.scale());
    if a.magnitude() == 0 {
        assert(a.significand() == 0);
        assert(0 * p == 0);
    } else {
        assert(a.significand() > 0);
        lemma_mul_strict_inequality(0, a.significand(), p);
        assert(0 * p == 0);
    }
}

proof fn lemma_abs_units_increasing(a: Double, b: Double)
    requires
        a.magnitude() < b.magnitude(),
    ensures
        a.abs_units() < b.abs_units(),
{
    let h = HIDDEN_BIT as int;
    let pa = pow2(a.scale()) as int;
    let pb = pow2(b.scale()) as int;
    lemma_pow2_pos(a.scale());
    lemma_pow2_pos(b.scale());
    assert(a.exponent() <= b.exponent());
    if a.exponent() == b.exponent() {
        assert(a.fraction() < b.fraction());
        lemma_mul_strict_inequality(a.significand(), b.significand(), pa);
    } else {
        // b is normal: its value is at least the hidden bit at its scale.
        lemma_mul_inequality(h, b.significand(), pb);
        if a.exponent() == 0 {
            assert(pa == 1) by {
                lemma2_to64();
            }
            assert(a.abs_units() == a.fraction() * 1);
            lemma_mul_inequality(1, pb, h);
            assert(h * 1 == h);
            assert(pb * h == h * pb) by (nonlinear_arith);
        } else {
            // a lies below twice the hidden bit at its scale, which is the
            // hidden bit one scale higher.
            let up = pow2((a.scale() + 1) as nat) as int;
            lemma_pow2_unfold((a.scale() + 1) as nat);
            assert(up == 2 * pa);
            lemma_mul_strict_inequality(a.significand(), 2 * h, pa);
            assert((2 * h) * pa == h * up) by (nonlinear_arith)
                requires
                    up == 2 * pa,
            ;
            if a.scale() + 1 < b.scale() {
                lemma_pow2_strictly_increases((a.scale() + 1) as nat, b.scale());
            }
            assert(up <= pb);
            lemma_mul_inequality(up, pb, h);
            assert(up * h == h * up) by (nonlinear_arith);
            assert(pb * h == h * pb) by (nonlinear_arith);
        }
    }
}

} // verus!
