//! Sums and differences of doubles, correctly rounded.

use vstd::prelude::*;
use vstd::arithmetic::power2::{
    pow2,
    lemma2_to64,
    lemma2_to64_rest,
    lemma_pow2_adds,
    lemma_pow2_pos,
    lemma_pow2_strictly_increases,
    lemma_pow2_unfold,
};
use vstd::arithmetic::mul::{lemma_mul_inequality, lemma_mul_strict_inequality};
use crate::number::{Double, HIDDEN_BIT, INFINITY_BITS, SIGN_BIT, lemma_abs_units_order};
use crate::rounding::{distance, nearest, overflow_bound, rounds_to, lemma_gap, lemma_finite_below_bound};

verus! {

/// The encoding of the value that an undefined sum has: a quiet NaN.
pub const NAN_BITS: u64 = 0x7ff8_0000_0000_0000;

/// The value of a magnitude with a sign.
pub open spec fn signed(negative: bool, magnitude: int) -> int {
    if negative {
        -magnitude
    } else {
        magnitude
    }
}

/// `r` is the sum of two finite doubles with the given signs and absolute
/// values: the exact sum, rounded. A sum that is exactly zero is the negative
/// zero where both terms are negative, else the positive zero.
pub open spec fn is_finite_sum(na: bool, va: int, nb: bool, vb: int, r: Double) -> bool {
    let x = signed(na, va) + signed(nb, vb);
    if x == 0 {
        r.magnitude() == 0 && r.negative() == (na && nb)
    } else {
        r.negative() == (x < 0) && rounds_to(distance(x, 0), r)
    }
}

/// `r` is `a + b` as IEEE 754 defines it, rounding to nearest, ties to even.
/// Where a term is not a number, or the terms are the two infinities, the sum
/// is the quiet NaN with no payload.
pub open spec fn is_sum(a: Double, b: Double, r: Double) -> bool {
    if a.nan() || b.nan() {
        r.bits == NAN_BITS
    } else if a.infinite() && b.infinite() {
        if a.negative() == b.negative() {
            r == a
        } else {
            r.bits == NAN_BITS
        }
    } else if a.infinite() {
        r == a
    } else if b.infinite() {
        r == b
    } else {
        is_finite_sum(a.negative(), a.abs_units(), b.negative(), b.abs_units(), r)
    }
}

/// Two doubles with one sign and one magnitude are one double.
proof fn lemma_same_bits(r1: Double, r2: Double)
    requires
        r1.negative() == r2.negative(),
        r1.magnitude() == r2.magnitude(),
    ensures
        r1 == r2,
{
}

/// An absolute value rounds to one magnitude only.
proof fn lemma_rounding_unique(ax: int, r1: Double, r2: Double)
    requires
        rounds_to(ax, r1),
        rounds_to(ax, r2),
    ensures
        r1.magnitude() == r2.magnitude(),
{
    if ax < overflow_bound() {
        lemma_abs_units_order(r1, r2);
        lemma_abs_units_order(r2, r1);
        assert(distance(r1.abs_units(), ax) <= distance(r2.abs_units(), ax));
        assert(distance(r2.abs_units(), ax) <= distance(r1.abs_units(), ax));
        if r1.magnitude() != r2.magnitude() {
            let (low, high) = if r1.magnitude() < r2.magnitude() {
                (r1, r2)
            } else {
                (r2, r1)
            };
            assert(low.magnitude() % 2 == 0 && high.magnitude() % 2 == 0);
            let between = Double { bits: (low.magnitude() + 1) as u64 };
            assert(between.magnitude() == low.magnitude() + 1);
            lemma_abs_units_order(low, between);
            lemma_abs_units_order(between, high);
            assert(between.finite());
            assert(distance(r1.abs_units(), ax) <= distance(between.abs_units(), ax));
        }
    }
}

/// A sum is one double only.
pub proof fn lemma_sum_unique(a: Double, b: Double, r1: Double, r2: Double)
    requires
        is_sum(a, b, r1),
        is_sum(a, b, r2),
    ensures
        r1 == r2,
{
    if !a.nan() && !b.nan() && a.finite() && b.finite() {
        let x = a.units() + b.units();
        if x != 0 {
            lemma_rounding_unique(distance(x, 0), r1, r2);
        }
        lemma_same_bits(r1, r2);
    }
}

/// A term that is not negative does not lower a finite double, and a term
/// that is not positive does not raise it: rounding does not pass the double
/// itself.
pub proof fn lemma_sum_direction(a: Double, b: Double, r: Double)
    requires
        is_sum(a, b, r),
        a.finite(),
        !b.nan(),
    ensures
        !r.nan(),
        b.units() >= 0 ==> r.units() >= a.units(),
        b.units() <= 0 ==> r.units() <= a.units(),
{
    lemma_finite_below_bound(a);
    lemma_abs_units_order(a, b);
    lemma_abs_units_order(b, a);
    lemma_abs_units_order(r, a);
    if b.infinite() {
        let top = Double { bits: INFINITY_BITS };
        assert(top.exponent() == 2047);
        assert(top.fraction() == 0);
        lemma_abs_units_order(top, b);
        lemma_pow2_adds(52, 2046);
        lemma2_to64_rest();
        lemma_pow2_pos(2045);
        lemma_pow2_pos(2044);
    } else {
        let x = a.units() + b.units();
        if x != 0 {
            let ax = distance(x, 0);
            if ax >= overflow_bound() {
                let top = Double { bits: INFINITY_BITS };
                assert(top.exponent() == 2047);
                assert(top.fraction() == 0);
                lemma_abs_units_order(top, r);
                lemma_pow2_adds(52, 2046);
                lemma2_to64_rest();
                lemma_pow2_pos(2045);
                lemma_pow2_pos(2044);
                lemma_finite_below_bound(b);
            } else {
                assert(distance(r.abs_units(), ax) <= distance(a.abs_units(), ax));
            }
        }
    }
}

/// The double with the next greater magnitude lies one step of the scale
/// further from zero.
pub proof fn lemma_next_magnitude(a: Double, next: Double)
    requires
        a.finite(),
        next.magnitude() == a.magnitude() + 1,
    ensures
        next.abs_units() == a.abs_units() + pow2(a.scale()),
        a.scale() <= next.scale(),
{
    let step = pow2(a.scale()) as int;
    let sig = a.significand();
    if a.fraction() < HIDDEN_BIT - 1 {
        assert(next.exponent() == a.exponent());
        assert(next.fraction() == a.fraction() + 1);
        assert((sig + 1) * step == sig * step + step) by (nonlinear_arith);
    } else {
        assert(next.exponent() == a.exponent() + 1);
        assert(next.fraction() == 0);
        if a.exponent() == 0 {
            assert((sig + 1) * step == sig * step + step) by (nonlinear_arith);
        } else {
            lemma_pow2_unfold(next.scale());
            assert(HIDDEN_BIT * (2 * step) == (2 * HIDDEN_BIT - 1) * step + step)
                by (nonlinear_arith);
        }
    }
}

/// An infinity stands at two to the power of 2098, beyond every finite double.
proof fn lemma_infinite_units(b: Double)
    requires
        b.infinite(),
    ensures
        b.abs_units() == pow2(2098),
        b.abs_units() > overflow_bound(),
{
    assert(b.exponent() == 2047);
    assert(b.fraction() == 0);
    lemma_pow2_adds(52, 2046);
    lemma2_to64_rest();
    lemma_pow2_pos(2044);
}

/// A value within the range that is nearest to `a` lies less than a step of
/// the scale of `a` from it.
proof fn lemma_nearest_within_step(a: Double, ax: int, r: Double)
    requires
        a.finite(),
        nearest(ax, r),
        r.abs_units() == a.abs_units(),
        0 <= ax < overflow_bound(),
    ensures
        distance(ax, a.abs_units()) < pow2(a.scale()),
{
    lemma_pow2_pos(a.scale());
    lemma_abs_units_order(a, a);
    if ax >= a.abs_units() + pow2(a.scale()) {
        let next = Double { bits: (a.magnitude() + 1) as u64 };
        assert(next.magnitude() == a.magnitude() + 1);
        lemma_next_magnitude(a, next);
        if next.finite() {
            assert(distance(r.abs_units(), ax) <= distance(next.abs_units(), ax));
        } else {
            lemma_infinite_units(next);
        }
    } else if ax <= a.abs_units() - pow2(a.scale()) {
        let before = Double { bits: (a.magnitude() - 1) as u64 };
        assert(before.magnitude() == a.magnitude() - 1);
        lemma_next_magnitude(before, a);
        lemma_pow2_pos(before.scale());
        if before.scale() < a.scale() {
            lemma_pow2_strictly_increases(before.scale(), a.scale());
        }
        assert(distance(r.abs_units(), ax) <= distance(before.abs_units(), ax));
    }
}

/// A positive term of at least a step of the scale of a finite double raises
/// it, and a negative term of that size lowers it: the nearest double to such
/// a sum is not the double itself.
pub proof fn lemma_sum_moves(a: Double, b: Double, r: Double)
    requires
        is_sum(a, b, r),
        a.finite(),
        !b.nan(),
        b.abs_units() >= pow2(a.scale()),
    ensures
        b.units() > 0 ==> r.units() > a.units(),
        b.units() < 0 ==> r.units() < a.units(),
{
    lemma_sum_direction(a, b, r);
    lemma_abs_units_order(a, b);
    lemma_abs_units_order(r, a);
    lemma_finite_below_bound(a);
    lemma_pow2_pos(a.scale());
    if b.infinite() {
        lemma_infinite_units(b);
    } else if r.units() == a.units() {
        let x = a.units() + b.units();
        let ax = distance(x, 0);
        if x != 0 {
            if ax >= overflow_bound() {
                lemma_infinite_units(r);
                lemma_finite_below_bound(b);
            } else if r.negative() == a.negative() || a.magnitude() == 0 {
                assert(r.abs_units() == a.abs_units());
                lemma_nearest_within_step(a, ax, r);
            }
        }
    }
}

/// A term too small to reach half way to a neighbour of `a` leaves `a` as the
/// sum: `a` is normal with a scale of at least 12, and the term lies below
/// the step of `a` divided by 4096.
proof fn lemma_small_term(a: Double, ax: int, b: int)
    requires
        a.finite(),
        a.significand() >= HIDDEN_BIT,
        a.scale() >= 12,
        0 <= b < pow2((a.scale() - 12) as nat),
        ax == a.abs_units() + b || ax == a.abs_units() - b,
    ensures
        ax > 0,
        ax < overflow_bound(),
        nearest(ax, a),
{
    let k = a.scale();
    let sig = a.significand();
    let step = pow2(k) as int;
    let below = pow2((k - 1) as nat) as int;
    let bound = pow2((k - 12) as nat) as int;
    let here = a.abs_units();
    lemma_pow2_unfold(k);
    lemma_pow2_pos((k - 1) as nat);
    lemma_pow2_strictly_increases((k - 12) as nat, (k - 2) as nat);
    lemma_pow2_unfold((k - 1) as nat);
    assert(4 * b < step);
    lemma_mul_inequality(HIDDEN_BIT as int, sig, step);
    assert(HIDDEN_BIT * step >= step) by (nonlinear_arith)
        requires
            step > 0,
    ;
    assert((sig + 1) * step == here + step) by (nonlinear_arith)
        requires
            here == sig * step,
    ;
    assert((sig - 1) * step == here - step) by (nonlinear_arith)
        requires
            here == sig * step,
    ;
    assert((2 * HIDDEN_BIT) * below == HIDDEN_BIT * step) by (nonlinear_arith)
        requires
            step == 2 * below,
    ;
    assert((2 * HIDDEN_BIT - 1) * below == HIDDEN_BIT * step - below) by (nonlinear_arith)
        requires
            step == 2 * below,
    ;
    assert forall|y: Double| #[trigger] y.abs_units() != here implies y.abs_units() <= here - below
        || y.abs_units() >= here + below by {
        lemma_gap(y, sig, k);
        if sig > HIDDEN_BIT {
            lemma_gap(y, sig - 1, k);
        } else {
            lemma_gap(y, 2 * HIDDEN_BIT - 1, (k - 1) as nat);
        }
    }
    lemma_finite_below_bound(a);
    lemma_pow2_unfold(2045);
    if k - 12 < 2043 {
        lemma_pow2_strictly_increases((k - 12) as nat, 2043);
    }
    lemma_pow2_unfold(2044);
}

impl Double {
    /// The significand and the scale of a finite double.
    pub(crate) fn parts(self) -> (r: (u64, u64))
        requires
            self.finite(),
        ensures
            r.0 == self.significand(),
            r.1 == self.scale(),
            r.0 < 2 * HIDDEN_BIT,
            r.1 <= 2045,
            r.0 < HIDDEN_BIT ==> r.1 == 0,
    {
        let m: u64 = if self.bits >= SIGN_BIT {
            self.bits - SIGN_BIT
        } else {
            self.bits
        };
        let e: u64 = m / HIDDEN_BIT;
        let f: u64 = m % HIDDEN_BIT;
        if e == 0 {
            (f, 0)
        } else {
            (HIDDEN_BIT + f, e - 1)
        }
    }
}

/// Two to the power of `d`.
fn power_of_two(d: u64) -> (p: u128)
    requires
        d <= 64,
    ensures
        p == pow2(d as nat),
        0 < p <= 0x1_0000_0000_0000_0000,
{
    let mut p: u128 = 1;
    let mut i: u64 = 0;
    proof {
        lemma2_to64();
    }
    while i < d
        invariant
            i <= d <= 64,
            p == pow2(i as nat),
            0 < p,
            p <= 0x1_0000_0000_0000_0000,
        decreases d - i,
    {
        proof {
            lemma_pow2_unfold((i + 1) as nat);
            lemma2_to64();
            if i + 1 < 64 {
                lemma_pow2_strictly_increases((i + 1) as nat, 64);
            }
        }
        p = p * 2;
        i = i + 1;
    }
    p
}

/// The sum of two finite doubles given by sign, significand and scale, the
/// one with the greater scale first.
fn add_finite(na: bool, sa: u64, ka: u64, nb: bool, sb: u64, kb: u64) -> (r: Double)
    requires
        sa < 2 * HIDDEN_BIT,
        sb < 2 * HIDDEN_BIT,
        kb <= ka <= 2045,
        sa < HIDDEN_BIT ==> ka == 0,
    ensures
        !r.nan(),
        is_finite_sum(na, sa * pow2(ka as nat), nb, sb * pow2(kb as nat), r),
{
    let ghost va: int = sa * pow2(ka as nat);
    let ghost vb: int = sb * pow2(kb as nat);
    let ghost unit: int = pow2(kb as nat) as int;
    let d: u64 = ka - kb;
    proof {
        lemma_pow2_pos(kb as nat);
        lemma_pow2_pos(ka as nat);
    }
    if d > 64 {
        let r = Double::pack(na, sa, ka);
        proof {
            // The second term lies below two to the power of 53 at its own
            // scale, which is 65 below the scale of the first.
            lemma_mul_strict_inequality(sb as int, 2 * HIDDEN_BIT, unit);
            lemma_pow2_adds(53, kb as nat);
            lemma2_to64_rest();
            assert(vb < pow2((53 + kb) as nat)) by (nonlinear_arith)
                requires
                    vb == sb * unit,
                    sb * unit < (2 * HIDDEN_BIT) * unit,
                    pow2((53 + kb) as nat) == 0x20_0000_0000_0000 * unit,
                    HIDDEN_BIT == 0x10_0000_0000_0000,
            ;
            if 53 + kb < ka - 12 {
                lemma_pow2_strictly_increases((53 + kb) as nat, (ka - 12) as nat);
            }
            lemma_mul_inequality(0, sb as int, unit);
            let x = signed(na, va) + signed(nb, vb);
            let ax = distance(x, 0);
            let step = pow2(ka as nat) as int;
            lemma_mul_inequality(HIDDEN_BIT as int, sa as int, step);
            assert(HIDDEN_BIT * step >= step) by (nonlinear_arith)
                requires
                    step > 0,
            ;
            lemma_pow2_strictly_increases((ka - 12) as nat, ka as nat);
            assert(0 <= vb < va);
            assert(ax == va + vb || ax == va - vb);
            lemma_small_term(r, ax, vb);
        }
        return r;
    }
    let p: u128 = power_of_two(d);
    proof {
        lemma_pow2_adds(d as nat, kb as nat);
        assert(sa * p < 0x20_0000_0000_0000 * 0x1_0000_0000_0000_0000 + 1) by (nonlinear_arith)
            requires
                0 <= sa < 0x20_0000_0000_0000,
                0 < p <= 0x1_0000_0000_0000_0000,
        ;
    }
    let big: u128 = (sa as u128) * p;
    let small: u128 = sb as u128;
    proof {
        assert(va == big * unit) by (nonlinear_arith)
            requires
                va == sa * pow2(ka as nat),
                pow2(ka as nat) == p * unit,
                big == sa * p,
        ;
        assert((big + small) * unit == va + vb) by (nonlinear_arith)
            requires
                va == big * unit,
                vb == small * unit,
        ;
        assert((big - small) * unit == va - vb) by (nonlinear_arith)
            requires
                va == big * unit,
                vb == small * unit,
        ;
        assert((small - big) * unit == vb - va) by (nonlinear_arith)
            requires
                va == big * unit,
                vb == small * unit,
        ;
    }
    let negative: bool;
    let t: u128;
    if na == nb {
        negative = na;
        t = big + small;
    } else if big >= small {
        negative = na;
        t = big - small;
    } else {
        negative = nb;
        t = small - big;
    }
    if t == 0 {
        let r = Double::pack(na && nb, 0, 0);
        proof {
            assert(0 * unit == 0);
        }
        return r;
    }
    proof {
        lemma_mul_strict_inequality(0, t as int, unit);
        assert(0 * unit == 0);
    }
    Double::round_pack(negative, t, kb)
}

impl Double {
    /// The sum of two doubles.
    pub open spec fn plus(self, other: Double) -> Double {
        choose|r: Double| is_sum(self, other, r)
    }

    /// The double with the other sign.
    pub open spec fn negated(self) -> Double {
        if self.bits >= SIGN_BIT {
            Double { bits: (self.bits - SIGN_BIT) as u64 }
        } else {
            Double { bits: (self.bits + SIGN_BIT) as u64 }
        }
    }

    /// The difference of two doubles: the sum of the first and the second
    /// with the other sign.
    pub open spec fn minus(self, other: Double) -> Double {
        self.plus(other.negated())
    }

    /// `self + other`, rounded to the nearest double, ties to even.
    pub fn add(self, other: Double) -> (r: Double)
        ensures
            is_sum(self, other, r),
            r == self.plus(other),
    {
        let r = self.sum_with(other);
        proof {
            lemma_sum_unique(self, other, r, self.plus(other));
        }
        r
    }

    /// The sum, by the cases of its definition.
    fn sum_with(self, other: Double) -> (r: Double)
        ensures
            is_sum(self, other, r),
    {
        if self.is_nan() || other.is_nan() {
            return Double { bits: NAN_BITS };
        }
        let na: bool = self.bits >= SIGN_BIT;
        let nb: bool = other.bits >= SIGN_BIT;
        let ma: u64 = if na {
            self.bits - SIGN_BIT
        } else {
            self.bits
        };
        let mb: u64 = if nb {
            other.bits - SIGN_BIT
        } else {
            other.bits
        };
        if ma == INFINITY_BITS {
            if mb == INFINITY_BITS && na != nb {
                return Double { bits: NAN_BITS };
            }
            return self;
        }
        if mb == INFINITY_BITS {
            return other;
        }
        let (sa, ka) = self.parts();
        let (sb, kb) = other.parts();
        if ka >= kb {
            add_finite(na, sa, ka, nb, sb, kb)
        } else {
            add_finite(nb, sb, kb, na, sa, ka)
        }
    }

    /// The double with the other sign.
    pub fn neg(self) -> (r: Double)
        ensures
            r == self.negated(),
    {
        if self.bits >= SIGN_BIT {
            Double { bits: self.bits - SIGN_BIT }
        } else {
            Double { bits: self.bits + SIGN_BIT }
        }
    }

    /// `self - other`, rounded to the nearest double, ties to even.
    pub fn sub(self, other: Double) -> (r: Double)
        ensures
            is_sum(self, other.negated(), r),
            r == self.minus(other),
    {
        self.add(other.neg())
    }
}

} // verus!
