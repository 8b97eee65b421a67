//! The exponential function.
//!
//! `exp` reduces its argument to `x = k * ln(2) + r` with `|r| <= ln(2)/2`,
//! approximates `exp(r)` with a Remez rational form, and scales by `2^k`
//! with a shift of the unit value. Every step is a fixed-point operation in
//! the 36-digit tier.

use vstd::arithmetic::power2::pow2;
use vstd::prelude::*;

use crate::fixed::{
    abs, lemma_pdiv_le, lemma_pmul_le, lemma_pow2_facts, decimal_one, decimal_opt,
    lemma_pmul_by_units, lemma_tdiv_abs, narrow_opt, pdiv, pmul, precise_one, precise_opt, tdiv,
    widen, Decimal, I256, PreciseDecimal,
};
use crate::logarithm::{ln2, spec_ln2};

verus! {

/// `1 / ln(2)`, in subunits.
pub open spec fn spec_invln2() -> int {
    1442695040888963407359924681001892137
}

/// Coefficients of the Remez polynomial for `exp`, in subunits.
pub open spec fn spec_p(i: int) -> int {
    if i == 1 {
        166666666666666019037000000000000000
    } else if i == 2 {
        -2777777777701559338420000000000000
    } else if i == 3 {
        66137563214379343611700000000000
    } else if i == 4 {
        -1653390220546525153900000000000
    } else {
        41381367970572384603900000000
    }
}

/// `1 / ln(2)`.
pub fn invln2() -> (r: PreciseDecimal)
    ensures
        r@ == spec_invln2(),
{
    PreciseDecimal(I256 { d0: 15089719145448569129, d1: 78208654878293888, d2: 0, d3: 0 })
}

/// `0.5`.
pub fn half_positive() -> (r: PreciseDecimal)
    ensures
        r@ == precise_one() / 2,
{
    PreciseDecimal(I256 { d0: 15683169460410122240, d1: 27105054312137610, d2: 0, d3: 0 })
}

/// `-0.5`.
pub fn half_negative() -> (r: PreciseDecimal)
    ensures
        r@ == -(precise_one() / 2),
{
    PreciseDecimal(
        I256 {
            d0: 2763574613299429376,
            d1: 18419639019397414005,
            d2: 18446744073709551615,
            d3: 18446744073709551615,
        },
    )
}

/// The `i`-th coefficient of the Remez polynomial for `exp`, for `i` in `1..=5`.
pub fn p(i: u8) -> (r: PreciseDecimal)
    requires
        1 <= i <= 5,
    ensures
        r@ == spec_p(i as int),
{
    if i == 1 {
        PreciseDecimal(I256 { d0: 3234099066637680640, d1: 9035018104045835, d2: 0, d3: 0 })
    } else if i == 2 {
        PreciseDecimal(
            I256 {
                d0: 11778003218777292800,
                d1: 18446593490074488316,
                d2: 18446744073709551615,
                d3: 18446744073709551615,
            },
        )
    } else if i == 3 {
        PreciseDecimal(I256 { d0: 6886327069168830464, d1: 3585324485996, d2: 0, d3: 0 })
    } else if i == 4 {
        PreciseDecimal(
            I256 {
                d0: 15836638502324193280,
                d1: 18446743984079088161,
                d2: 18446744073709551615,
                d3: 18446744073709551615,
            },
        )
    } else {
        PreciseDecimal(I256 { d0: 13020310661629261568, d1: 2243288452, d2: 0, d3: 0 })
    }
}

/// Below this many units the exponential is returned as zero.
pub open spec fn exp_underflow() -> int {
    -82
}

/// Above this many units the exponential is absent.
pub open spec fn exp_overflow() -> int {
    93
}

/// `round(x / ln(2))`: `x / ln(2)` plus a half of `x`'s sign, truncated.
pub open spec fn exp_exponent(x: int) -> int {
    let half = if x < 0 {
        -(precise_one() / 2)
    } else {
        precise_one() / 2
    };
    tdiv(pmul(spec_invln2(), x) + half, precise_one())
}

/// `exp(r)` for a reduced `r`, as `1 + r + r * c / (2 - c)`.
pub open spec fn exp_of_reduced(r: int) -> int {
    let rr = pmul(r, r);
    let t = spec_p(4) + pmul(rr, spec_p(5));
    let t = spec_p(3) + pmul(rr, t);
    let t = spec_p(2) + pmul(rr, t);
    let t = spec_p(1) + pmul(rr, t);
    let c = r - pmul(rr, t);
    precise_one() + r + pdiv(pmul(r, c), 2 * precise_one() - c)
}

/// `2^k` as a fixed-point value: the unit shifted left, or right (rounding
/// down) for negative `k`.
pub open spec fn two_pow(k: int) -> int {
    if k < 0 {
        precise_one() / (pow2((-k) as nat) as int)
    } else {
        precise_one() * pow2(k as nat)
    }
}

/// The computed exponential of `x` within the thresholds, in subunits.
pub open spec fn exp_value(x: int) -> int {
    let k = exp_exponent(x);
    let r = x - pmul(spec_ln2(), k * precise_one());
    pmul(two_pow(k), exp_of_reduced(r))
}

/// The exponential: exactly one at zero, zero below the underflow threshold,
/// absent above the overflow threshold.
pub open spec fn exp_spec(x: int) -> Option<int> {
    if x == 0 {
        Some(precise_one())
    } else if x < exp_underflow() * precise_one() {
        Some(0)
    } else if x > exp_overflow() * precise_one() {
        None
    } else {
        Some(exp_value(x))
    }
}

/// The `Decimal` exponential: zero below `-42`, absent above `90`, otherwise
/// computed in the precise tier and truncated back.
pub open spec fn exp_decimal_spec(x: int) -> Option<int> {
    if x < -42 * decimal_one() {
        Some(0)
    } else if x > 90 * decimal_one() {
        None
    } else {
        narrow_opt(exp_spec(widen(x)))
    }
}

/// The exponential of an 18-digit `Decimal`, computed in the precise tier.
pub trait ExponentialDecimal {
    fn exp(&self) -> Option<Decimal>;
}

/// The exponential of a 36-digit `PreciseDecimal`.
pub trait ExponentialPreciseDecimal {
    fn exp(&self) -> Option<PreciseDecimal>;
}

/// Bounds of truncating division by a positive divisor.
proof fn lemma_tdiv_bounds(a: int, d: int)
    requires
        d > 0,
    ensures
        a >= 0 ==> 0 <= tdiv(a, d) && tdiv(a, d) * d <= a < tdiv(a, d) * d + d,
        a < 0 ==> tdiv(a, d) <= 0 && a <= tdiv(a, d) * d && tdiv(a, d) * d < a + d,
{
    vstd::arithmetic::div_mod::lemma_fundamental_div_mod(abs(a), d);
    vstd::arithmetic::div_mod::lemma_mod_bound(abs(a), d);
    vstd::arithmetic::div_mod::lemma_div_pos_is_pos(abs(a), d);
    assert(d * (abs(a) / d) == (abs(a) / d) * d) by (nonlinear_arith);
    if a < 0 {
        assert(tdiv(a, d) * d == -((abs(a) / d) * d)) by (nonlinear_arith)
            requires
                tdiv(a, d) == -(abs(a) / d),
        ;
    }
}

/// The reduction `k = round(x / ln(2))` of `x` within the thresholds leaves a
/// remainder of at most one half, and bounds `k`.
proof fn lemma_exp_exponent_bounds(x: int)
    requires
        exp_underflow() * precise_one() <= x <= exp_overflow() * precise_one(),
        x != 0,
    ensures
        x > 0 ==> 0 <= exp_exponent(x) <= 134,
        x > 0 && x <= 90 * precise_one() ==> exp_exponent(x) <= 130,
        x < 0 ==> -119 <= exp_exponent(x) <= 0,
        abs(x - spec_ln2() * exp_exponent(x)) <= precise_one() / 2,
{
    let one = precise_one();
    let prod = spec_invln2() * x;
    let m = pmul(spec_invln2(), x);
    let half = if x < 0 {
        -(one / 2)
    } else {
        one / 2
    };
    let kk = m + half;
    let k = exp_exponent(x);
    lemma_tdiv_bounds(prod, one);
    lemma_tdiv_bounds(kk, one);
    if x > 0 {
        assert(prod > 0);
        assert(k >= 0);
        assert(x - spec_ln2() * k <= one / 2);
        assert(x - spec_ln2() * k >= -(one / 2));
    } else {
        assert(prod < 0);
        assert(x - spec_ln2() * k <= one / 2);
        assert(x - spec_ln2() * k >= -(one / 2));
    }
}

/// `exp(r)` for `|r| <= 1/2`, which lies in `[1/4, 7/4]`.
fn exp_reduced(r: PreciseDecimal) -> (res: PreciseDecimal)
    requires
        abs(r@) <= precise_one() / 2,
    ensures
        res@ == exp_of_reduced(r@),
        precise_one() / 4 <= res@ <= 7 * precise_one() / 4,
{
    // Bounds, in subunits: 1/2, 1/4, 1/5, 3/10, 23/40, 23/80, 57/40.
    let ghost half = 500000000000000000000000000000000000int;
    let ghost quarter = 250000000000000000000000000000000000int;
    let ghost fifth = 200000000000000000000000000000000000int;
    let ghost bt = 300000000000000000000000000000000000int;
    let ghost bc = 575000000000000000000000000000000000int;
    let ghost brc = 287500000000000000000000000000000000int;
    let ghost bden = 1425000000000000000000000000000000000int;
    proof {
        lemma_pmul_le(r@, r@, half, half);
    }
    let rr = r.product(r);
    assert(abs(rr@) <= quarter);
    let p5 = p(5);
    proof {
        lemma_pmul_le(rr@, p5@, quarter, fifth);
    }
    let t = rr.product(p5);
    let t = p(4).sum(t);
    assert(abs(t@) <= bt);
    proof {
        lemma_pmul_le(rr@, t@, quarter, bt);
    }
    let t = rr.product(t);
    let t = p(3).sum(t);
    assert(abs(t@) <= bt);
    proof {
        lemma_pmul_le(rr@, t@, quarter, bt);
    }
    let t = rr.product(t);
    let t = p(2).sum(t);
    assert(abs(t@) <= bt);
    proof {
        lemma_pmul_le(rr@, t@, quarter, bt);
    }
    let t = rr.product(t);
    let t = p(1).sum(t);
    assert(abs(t@) <= bt);
    proof {
        lemma_pmul_le(rr@, t@, quarter, bt);
    }
    let c = r.difference(rr.product(t));
    assert(abs(c@) <= bc);
    proof {
        lemma_pmul_le(r@, c@, half, bc);
    }
    let rc = r.product(c);
    let den = PreciseDecimal::two().difference(c);
    proof {
        lemma_pdiv_le(rc@, den@, brc, bden);
    }
    let d = rc.quotient(den);
    assert(abs(d@) <= quarter);
    PreciseDecimal::one().sum(r).sum(d)
}

impl ExponentialPreciseDecimal for PreciseDecimal {
    /// One at zero, zero below `-82`, absent above `93`, otherwise the
    /// reduced-argument approximation; never negative, and below `2^131`
    /// for inputs up to `90`.
    fn exp(&self) -> (res: Option<PreciseDecimal>)
        ensures
            precise_opt(res) == exp_spec(self@),
            res matches Some(v) ==> v@ >= 0,
            self@ <= 90 * precise_one() ==> (res matches Some(v) ==> v@ < pow2(131) * precise_one()),
    {
        let x = *self;
        let zero = PreciseDecimal::zero();
        proof {
            lemma_pow2_facts();
        }
        if x == zero {
            return Some(PreciseDecimal::one());
        }
        proof {
            if x@ == 0 {
                crate::fixed::lemma_precise_view_injective(x, zero);
            }
        }
        if x.lt(PreciseDecimal::from_i32(-82)) {
            return Some(zero);
        }
        if PreciseDecimal::from_i32(93).lt(x) {
            return None;
        }
        let ghost one = precise_one();
        proof {
            lemma_exp_exponent_bounds(x@);
            lemma_pmul_le(spec_invln2(), x@, spec_invln2(), 93 * one);
            lemma_pow2_facts();
        }
        let negative = x.lt(zero);
        let signed_half = if negative {
            half_negative()
        } else {
            half_positive()
        };
        let kk = invln2().product(x).sum(signed_half);
        let unit = PreciseDecimal::one();
        let k = kk.0.div(unit.0).to_i32().unwrap();
        assert(k == exp_exponent(x@));
        proof {
            lemma_pmul_by_units(spec_ln2(), k as int);
        }
        let r = x.difference(ln2().product(PreciseDecimal::from_i32(k)));
        let exp_r = exp_reduced(r);
        let two_pow_k = if negative {
            PreciseDecimal(unit.0.shr((-k) as u32))
        } else {
            proof {
                if k < 134 {
                    vstd::arithmetic::power2::lemma_pow2_strictly_increases(k as nat, 134);
                }
                assert(one * pow2(k as nat) <= one * pow2(134)) by (nonlinear_arith)
                    requires
                        pow2(k as nat) <= pow2(134),
                        one > 0,
                ;
            }
            PreciseDecimal(unit.0.shl(k as u32))
        };
        proof {
            vstd::arithmetic::power2::lemma2_to64();
            vstd::arithmetic::power2::lemma_pow2_pos(if k < 0 { (-k) as nat } else { k as nat });
            let e = exp_r@;
            let tp = two_pow_k@;
            if negative {
                if k == 0 {
                    assert(one / 1 == one);
                }
                assert(two_pow_k@ == two_pow(k as int));
                vstd::arithmetic::div_mod::lemma_div_is_ordered_by_denominator(one, 1, pow2((-k) as nat) as int);
                vstd::arithmetic::div_mod::lemma_div_pos_is_pos(one, pow2((-k) as nat) as int);
                lemma_pmul_le(tp, e, one, 7 * one / 4);
                assert(tp * e >= 0) by (nonlinear_arith)
                    requires
                        tp >= 0,
                        e >= 0,
                ;
                lemma_tdiv_abs(tp * e, one);
            } else {
                let pk = pow2(k as nat) as int;
                assert(tp * e == e * (pk * one)) by (nonlinear_arith)
                    requires
                        tp == one * pk,
                ;
                lemma_pmul_by_units(e, pk);
                if k < 130 {
                    vstd::arithmetic::power2::lemma_pow2_strictly_increases(k as nat, 130);
                }
                if k < 134 {
                    vstd::arithmetic::power2::lemma_pow2_strictly_increases(k as nat, 134);
                }
                assert(e * pk <= (7 * one / 4) * pow2(134)) by (nonlinear_arith)
                    requires
                        0 <= e <= 7 * one / 4,
                        0 < pk <= pow2(134),
                ;
                assert(k <= 130 ==> e * pk <= (7 * one / 4) * pow2(130)) by (nonlinear_arith)
                    requires
                        0 <= e <= 7 * one / 4,
                        0 < pk,
                        k <= 130 ==> pk <= pow2(130),
                ;
            }
        }
        Some(two_pow_k.product(exp_r))
    }
}

impl ExponentialDecimal for Decimal {
    /// Zero below `-42`, absent above `90`, otherwise the precise exponential
    /// truncated back, which is then always present.
    fn exp(&self) -> (res: Option<Decimal>)
        ensures
            decimal_opt(res) == exp_decimal_spec(self@),
            res is Some <==> self@ <= 90 * decimal_one(),
    {
        let x = PreciseDecimal::from_decimal(*self);
        if x.lt(PreciseDecimal::from_i32(-42)) {
            return Some(Decimal::zero());
        }
        if PreciseDecimal::from_i32(90).lt(x) {
            return None;
        }
        match x.exp() {
            Some(e) => {
                proof {
                    crate::fixed::lemma_pow2_facts();
                    lemma_tdiv_abs(e@, 1_000_000_000_000_000_000);
                    vstd::arithmetic::div_mod::lemma_div_is_ordered(e@, pow2(131) * precise_one(), 1_000_000_000_000_000_000);
                }
                Decimal::try_from_precise(e)
            },
            None => None,
        }
    }
}

/// `exp(0) == 1`, in both tiers.
pub proof fn lemma_exp_anchor()
    ensures
        exp_spec(0) == Some(precise_one()),
        exp_decimal_spec(0) == Some(decimal_one()),
{
    crate::fixed::lemma_narrow_widen(decimal_one());
}

/// Below the underflow threshold the exponential is exactly zero; above the
/// overflow threshold it is absent; in both tiers.
pub proof fn lemma_exp_saturation(x: int)
    ensures
        x < exp_underflow() * precise_one() ==> exp_spec(x) == Some(0int),
        x > exp_overflow() * precise_one() ==> exp_spec(x) is None,
        x < -42 * decimal_one() ==> exp_decimal_spec(x) == Some(0int),
        x > 90 * decimal_one() ==> exp_decimal_spec(x) is None,
{
}

} // verus!
