//! Rounding to the nearest double, ties to the even one.
//!
//! The finite doubles are the values `m * 2^k` in units of two to the power of
//! -1074, with `m` below two to the power of 53 and `k` up to 2045. A value
//! between two neighbours goes to the nearer, a value half way to the one whose
//! encoding is even, and a value at least half a step above the greatest
//! finite double to infinity.

use vstd::prelude::*;
use vstd::arithmetic::power2::{
    pow2,
    lemma2_to64,
    lemma2_to64_rest,
    lemma_pow2_adds,
    lemma_pow2_pos,
    lemma_pow2_strictly_increases,
    lemma_pow2_unfold,
};
use vstd::arithmetic::mul::{lemma_mul_inequality, lemma_mul_strict_inequality};
use crate::number::{Double, HIDDEN_BIT, INFINITY_BITS, SIGN_BIT, lemma_abs_units_order};

verus! {

/// Two to the power of 118: the values that `round_pack` takes lie below it.
pub const ROUND_LIMIT: u128 = 0x40_0000_0000_0000_0000_0000_0000_0000;

/// How far apart two values are.
pub open spec fn distance(u: int, v: int) -> int {
    if u >= v {
        u - v
    } else {
        v - u
    }
}

/// The least absolute value that rounds to infinity: the greatest finite
/// double and half a step.
pub open spec fn overflow_bound() -> int {
    pow2(2098) - pow2(2044)
}

/// `r` is a finite double as near to the absolute value `ax` as any, and of
/// two that are equally near `r` is the one with the even encoding.
pub open spec fn nearest(ax: int, r: Double) -> bool {
    &&& r.finite()
    &&& forall|y: Double|
        y.finite() ==> distance(r.abs_units(), ax) <= distance(#[trigger] y.abs_units(), ax)
    &&& (r.magnitude() % 2 == 0 || forall|y: Double|
        y.finite() && #[trigger] y.abs_units() != r.abs_units() ==> distance(r.abs_units(), ax)
            != distance(y.abs_units(), ax))
}

/// The absolute value `ax` rounds to the magnitude of `r`.
pub open spec fn rounds_to(ax: int, r: Double) -> bool {
    if ax >= overflow_bound() {
        r.infinite()
    } else {
        nearest(ax, r)
    }
}

/// Between `q * 2^k` and the next multiple of `2^k` lies no double, where `q`
/// has its hidden bit.
pub proof fn lemma_gap(y: Double, q: int, k: nat)
    requires
        q >= HIDDEN_BIT,
    ensures
        y.abs_units() <= q * pow2(k) || y.abs_units() >= (q + 1) * pow2(k),
{
    let m = y.significand();
    let j = y.scale();
    let step = pow2(k) as int;
    lemma_pow2_pos(k);
    lemma_pow2_pos(j);
    if j >= k {
        let up = pow2((j - k) as nat) as int;
        lemma_pow2_adds((j - k) as nat, k);
        let n = m * up;
        assert(y.abs_units() == n * step) by (nonlinear_arith)
            requires
                y.abs_units() == m * pow2(j),
                pow2(j) == up * step,
                n == m * up,
        ;
        if n <= q {
            lemma_mul_inequality(n, q, step);
        } else {
            lemma_mul_inequality(q + 1, n, step);
        }
    } else {
        let low = pow2(j) as int;
        let next = pow2(j + 1) as int;
        lemma_pow2_unfold(j + 1);
        if j + 1 < k {
            lemma_pow2_strictly_increases(j + 1, k);
        }
        assert(next <= step);
        assert(m < 2 * HIDDEN_BIT);
        lemma_mul_inequality(m, 2 * HIDDEN_BIT, low);
        assert((2 * HIDDEN_BIT) * low == HIDDEN_BIT * next) by (nonlinear_arith)
            requires
                next == 2 * low,
        ;
        lemma_mul_inequality(next, step, HIDDEN_BIT as int);
        assert(next * HIDDEN_BIT == HIDDEN_BIT * next) by (nonlinear_arith);
        assert(step * HIDDEN_BIT == HIDDEN_BIT * step) by (nonlinear_arith);
        lemma_mul_inequality(HIDDEN_BIT as int, q, step);
    }
}

/// A double is nearest to its own absolute value.
pub proof fn lemma_exact_is_nearest(r: Double)
    requires
        r.finite(),
    ensures
        nearest(r.abs_units(), r),
{
}

/// Every finite double lies below the bound of overflow: by half a step at
/// least.
pub proof fn lemma_finite_below_bound(r: Double)
    requires
        r.finite(),
    ensures
        r.abs_units() <= pow2(2098) - pow2(2045),
        r.abs_units() < overflow_bound(),
{
    let top = Double { bits: (INFINITY_BITS - 1) as u64 };
    assert(top.magnitude() == INFINITY_BITS - 1);
    assert(top.exponent() == 2046);
    assert(top.fraction() == HIDDEN_BIT - 1);
    lemma_abs_units_order(r, top);
    let unit = pow2(2045) as int;
    assert(top.abs_units() == (2 * HIDDEN_BIT - 1) * unit);
    lemma_pow2_adds(53, 2045);
    lemma2_to64_rest();
    assert(pow2(2098) == 0x20_0000_0000_0000 * unit);
    lemma_pow2_unfold(2045);
    lemma_pow2_pos(2044);
}

/// The powers of two at the top of the range, as multiples of the power 2044.
proof fn lemma_top_powers()
    ensures
        pow2(2044) > 0,
        pow2(2045) == 2 * pow2(2044),
        pow2(2046) == 4 * pow2(2044),
        pow2(2098) == 0x40_0000_0000_0000 * pow2(2044),
        overflow_bound() == 0x3f_ffff_ffff_ffff * pow2(2044),
{
    lemma_pow2_pos(2044);
    lemma_pow2_unfold(2045);
    lemma_pow2_unfold(2046);
    lemma_pow2_adds(54, 2044);
    lemma2_to64_rest();
}

/// A value in the lower half of a gap, or half way above an even `q`, is
/// nearest to the double at the gap's lower end.
proof fn lemma_round_down(ax: int, q: int, k: nat, r: Double)
    requires
        q >= HIDDEN_BIT,
        q * pow2(k) <= ax,
        2 * (ax - q * pow2(k)) <= pow2(k),
        2 * (ax - q * pow2(k)) == pow2(k) ==> q % 2 == 0,
        r.finite(),
        r.abs_units() == q * pow2(k),
        r.magnitude() % 2 == q % 2,
    ensures
        nearest(ax, r),
{
    let step = pow2(k) as int;
    assert((q + 1) * step == q * step + step) by (nonlinear_arith);
    assert forall|y: Double| y.finite() implies distance(r.abs_units(), ax) <= distance(
        #[trigger] y.abs_units(),
        ax,
    ) by {
        lemma_gap(y, q, k);
    }
    if 2 * (ax - q * step) != step {
        assert forall|y: Double| y.finite() && #[trigger] y.abs_units() != r.abs_units() implies distance(
            r.abs_units(),
            ax,
        ) != distance(y.abs_units(), ax) by {
            lemma_gap(y, q, k);
        }
    }
}

/// A value in the upper half of a gap, or half way above an odd `q`, is
/// nearest to the double at the gap's upper end.
proof fn lemma_round_up(ax: int, q: int, k: nat, r: Double)
    requires
        q >= HIDDEN_BIT,
        q * pow2(k) <= ax < (q + 1) * pow2(k),
        2 * (ax - q * pow2(k)) >= pow2(k),
        2 * (ax - q * pow2(k)) == pow2(k) ==> q % 2 == 1,
        r.finite(),
        r.abs_units() == (q + 1) * pow2(k),
        r.magnitude() % 2 == (q + 1) % 2,
    ensures
        nearest(ax, r),
{
    let step = pow2(k) as int;
    assert((q + 1) * step == q * step + step) by (nonlinear_arith);
    assert forall|y: Double| y.finite() implies distance(r.abs_units(), ax) <= distance(
        #[trigger] y.abs_units(),
        ax,
    ) by {
        lemma_gap(y, q, k);
    }
    if 2 * (ax - q * step) != step {
        assert forall|y: Double| y.finite() && #[trigger] y.abs_units() != r.abs_units() implies distance(
            r.abs_units(),
            ax,
        ) != distance(y.abs_units(), ax) by {
            lemma_gap(y, q, k);
        }
    }
}

/// Where the gap's step is within the range, a value that goes to the lower
/// end of its gap is below the bound of overflow.
proof fn lemma_down_in_range(ax: int, q: int, k: nat)
    requires
        0 <= q < 2 * HIDDEN_BIT,
        k <= 2045,
        2 * (ax - q * pow2(k)) <= pow2(k),
        2 * (ax - q * pow2(k)) == pow2(k) ==> q % 2 == 0,
    ensures
        ax < overflow_bound(),
{
    lemma_top_powers();
    let unit = pow2(2044) as int;
    let step = pow2(k) as int;
    lemma_pow2_pos(k);
    if k < 2045 {
        lemma_pow2_strictly_increases(k, 2045);
    }
    assert(step <= 2 * unit);
    let twice = 2 * q + 1;
    assert(twice * step == 2 * (q * step) + step) by (nonlinear_arith)
        requires
            twice == 2 * q + 1,
    ;
    lemma_mul_inequality(step, 2 * unit, twice);
    assert(step * twice == twice * step) by (nonlinear_arith);
    assert((2 * unit) * twice == (2 * twice) * unit) by (nonlinear_arith);
    if q % 2 == 0 {
        assert(twice <= 0x3f_ffff_ffff_fffd);
        lemma_mul_inequality(2 * twice, 0x7f_ffff_ffff_fffa, unit);
    } else {
        assert(twice <= 0x3f_ffff_ffff_ffff);
        lemma_mul_inequality(2 * twice, 0x7f_ffff_ffff_fffe, unit);
    }
}

/// A value of at least `q * 2^k + 2^k / 2` with the greatest `q` and a step
/// at the top of the range, and any value with a step beyond the range, has
/// reached the bound of overflow.
proof fn lemma_out_of_range(ax: int, q: int, k: nat)
    requires
        q >= HIDDEN_BIT,
        q * pow2(k) <= ax,
        k >= 2046 || (k == 2045 && q == 2 * HIDDEN_BIT - 1 && 2 * (ax - q * pow2(k)) >= pow2(k)),
    ensures
        ax >= overflow_bound(),
{
    lemma_top_powers();
    let unit = pow2(2044) as int;
    let step = pow2(k) as int;
    if k >= 2046 {
        if k > 2046 {
            lemma_pow2_strictly_increases(2046, k);
        }
        assert(step >= 4 * unit);
        lemma_mul_inequality(HIDDEN_BIT as int, q, step);
        lemma_mul_inequality(4 * unit, step, HIDDEN_BIT as int);
        assert((4 * unit) * HIDDEN_BIT == 0x40_0000_0000_0000 * unit) by (nonlinear_arith);
        assert(step * HIDDEN_BIT == HIDDEN_BIT * step) by (nonlinear_arith);
    } else {
        assert(step == 2 * unit);
        assert(q * step == 0x3f_ffff_ffff_fffe * unit) by (nonlinear_arith)
            requires
                q == 0x1f_ffff_ffff_ffff,
                step == 2 * unit,
        ;
    }
}

/// A value below `(q + 1) * 2^k`, where that is a finite double, is below
/// the bound of overflow.
proof fn lemma_up_in_range(ax: int, r: Double)
    requires
        r.finite(),
        ax < r.abs_units(),
    ensures
        ax < overflow_bound(),
{
    lemma_finite_below_bound(r);
}

impl Double {
    /// The finite double with the given sign, significand and scale. A
    /// significand without its hidden bit has the scale zero.
    pub(crate) fn pack(negative: bool, sig: u64, scale: u64) -> (r: Double)
        requires
            sig < 2 * HIDDEN_BIT,
            scale <= 2045,
            sig < HIDDEN_BIT ==> scale == 0,
        ensures
            r.negative() == negative,
            r.finite(),
            r.significand() == sig,
            r.scale() == scale,
            r.abs_units() == sig * pow2(scale as nat),
            r.magnitude() % 2 == sig % 2,
    {
        let magnitude: u64 = if sig >= HIDDEN_BIT {
            scale * HIDDEN_BIT + sig
        } else {
            sig
        };
        let r = if negative {
            Double { bits: magnitude + SIGN_BIT }
        } else {
            Double { bits: magnitude }
        };
        assert(r.magnitude() == magnitude);
        r
    }

    /// The infinity of the given sign.
    pub(crate) fn infinity(negative: bool) -> (r: Double)
        ensures
            r.infinite(),
            r.negative() == negative,
            r.bits == if negative {
                (INFINITY_BITS + SIGN_BIT) as u64
            } else {
                INFINITY_BITS
            },
    {
        if negative {
            Double { bits: INFINITY_BITS + SIGN_BIT }
        } else {
            Double { bits: INFINITY_BITS }
        }
    }

    /// The double of the given sign whose magnitude the value `t * 2^scale`
    /// rounds to.
    pub(crate) fn round_pack(negative: bool, t: u128, scale: u64) -> (r: Double)
        requires
            0 < t < ROUND_LIMIT,
            scale <= 2045,
        ensures
            r.negative() == negative,
            !r.nan(),
            rounds_to(t * pow2(scale as nat), r),
    {
        let ghost ax: int = t * pow2(scale as nat);
        if t < 2 * (HIDDEN_BIT as u128) {
            let mut sig: u64 = t as u64;
            let mut e: u64 = scale;
            while sig < HIDDEN_BIT && e > 0
                invariant
                    0 < sig < 2 * HIDDEN_BIT,
                    e <= scale <= 2045,
                    sig * pow2(e as nat) == ax,
                decreases e,
            {
                proof {
                    lemma_pow2_unfold(e as nat);
                    assert((sig * 2) * pow2((e - 1) as nat) == sig * pow2(e as nat))
                        by (nonlinear_arith)
                        requires
                            pow2(e as nat) == 2 * pow2((e - 1) as nat),
                    ;
                }
                sig = sig * 2;
                e = e - 1;
            }
            let r = Double::pack(negative, sig, e);
            proof {
                lemma_exact_is_nearest(r);
                lemma_finite_below_bound(r);
            }
            return r;
        }
        let mut q: u128 = t;
        let mut s: u64 = 0;
        let mut p: u128 = 1;
        proof {
            lemma2_to64();
        }
        while q >= 2 * (HIDDEN_BIT as u128)
            invariant
                t < ROUND_LIMIT,
                p == pow2(s as nat),
                0 < p < 0x4_0000_0000_0000_0000,
                s <= 65,
                q * p <= t < (q + 1) * p,
                q >= HIDDEN_BIT,
                s == 0 ==> q == t,
            decreases q,
        {
            let h: u128 = q / 2;
            proof {
                assert(p < 0x2_0000_0000_0000_0000) by (nonlinear_arith)
                    requires
                        q >= 0x20_0000_0000_0000,
                        q * p <= t,
                        t < 0x40_0000_0000_0000_0000_0000_0000_0000,
                        p > 0,
                ;
                assert(h * (2 * p) <= q * p && (q + 1) * p <= (h + 1) * (2 * p))
                    by (nonlinear_arith)
                    requires
                        2 * h <= q <= 2 * h + 1,
                        p > 0,
                ;
                lemma_pow2_unfold((s + 1) as nat);
                if s >= 65 {
                    lemma2_to64();
                    lemma_pow2_adds(1, 64);
                    if s > 65 {
                        lemma_pow2_strictly_increases(65, s as nat);
                    }
                }
            }
            q = h;
            p = p * 2;
            s = s + 1;
        }
        let ghost k: nat = (scale + s) as nat;
        let ghost step: int = pow2(k) as int;
        let ghost unit: int = pow2(scale as nat) as int;
        proof {
            lemma_pow2_adds(s as nat, scale as nat);
            lemma_pow2_unfold(s as nat);
            lemma_pow2_pos(scale as nat);
            lemma_pow2_pos((s - 1) as nat);
        }
        let rem: u128 = t - q * p;
        let half: u128 = p / 2;
        assert(p == 2 * half);
        proof {
            assert(q * step == (q * p) * unit) by (nonlinear_arith)
                requires
                    step == p * unit,
            ;
            assert(ax - q * step == rem * unit) by (nonlinear_arith)
                requires
                    ax == t * unit,
                    q * step == (q * p) * unit,
                    rem == t - q * p,
            ;
            assert(step == 2 * (half * unit)) by (nonlinear_arith)
                requires
                    step == p * unit,
                    p == 2 * half,
            ;
            assert(rem < p) by (nonlinear_arith)
                requires
                    rem == t - q * p,
                    t < (q + 1) * p,
            ;
            if rem < half {
                lemma_mul_strict_inequality(rem as int, half as int, unit);
            } else if rem > half {
                lemma_mul_strict_inequality(half as int, rem as int, unit);
            }
            lemma_mul_strict_inequality(rem as int, p as int, unit);
            assert((q + 1) * step == q * step + step) by (nonlinear_arith);
        }
        let up: bool = rem > half || (rem == half && q % 2 == 1);
        let mut sig: u64 = q as u64;
        let mut e: u64 = scale + s;
        if up {
            sig = sig + 1;
            if sig == 2 * HIDDEN_BIT {
                sig = HIDDEN_BIT;
                e = e + 1;
                proof {
                    lemma_pow2_unfold((k + 1) as nat);
                    assert(HIDDEN_BIT * pow2((k + 1) as nat) == (q + 1) * step) by (nonlinear_arith)
                        requires
                            pow2((k + 1) as nat) == 2 * step,
                            q + 1 == 2 * HIDDEN_BIT,
                    ;
                }
            }
        }
        if e > 2045 {
            proof {
                lemma_out_of_range(ax, q as int, k);
            }
            return Double::infinity(negative);
        }
        let r = Double::pack(negative, sig, e);
        proof {
            if up {
                lemma_up_in_range(ax, r);
                lemma_round_up(ax, q as int, k, r);
            } else {
                lemma_down_in_range(ax, q as int, k);
                lemma_round_down(ax, q as int, k, r);
            }
        }
        r
    }
}

} // verus!
