//! Real powers, `base^exponent = exp(ln(base) * exponent)`, with the special
//! cases of the C library's `pow` that this number system can express,
//! checked in a fixed order.

use vstd::prelude::*;

use crate::exponential::{exp_spec, ExponentialPreciseDecimal};
use crate::fixed::{
    abs, decimal_one, lemma_narrow_widen, decimal_opt, fits_i256, lemma_pmul_by_units,
    lemma_precise_view_injective, lemma_tdiv_abs, narrow_opt, pdiv, pmul, precise_checked_wide,
    precise_one, precise_opt, tdiv, widen, Decimal, PreciseDecimal, I256,
};
use crate::logarithm::{ln_spec, LogarithmPreciseDecimal};

verus! {

/// `e` is a whole number of units.
pub open spec fn is_whole(e: int) -> bool {
    e % precise_one() == 0
}

/// `exp(ln(b) * e)`, absent where either step is, or where the product leaves
/// the representable range.
pub open spec fn exp_ln_product(b: int, e: int) -> Option<int> {
    match ln_spec(b) {
        Some(l) => match precise_checked_wide(pmul(l, e)) {
            Some(y) => exp_spec(y),
            None => None,
        },
        None => None,
    }
}

/// The negation of an optional value.
pub open spec fn negate_opt(v: Option<int>) -> Option<int> {
    match v {
        Some(m) => Some(-m),
        None => None,
    }
}

/// `b^e` for a negative `b`: absent unless `e` is whole (and `-b`
/// representable), otherwise `exp(ln(-b) * e)`, negated for odd `e`.
pub open spec fn pow_negative_base_spec(b: int, e: int) -> Option<int> {
    if !is_whole(e) || !fits_i256(-b) {
        None
    } else if tdiv(e, precise_one()) % 2 == 0 {
        exp_ln_product(-b, e)
    } else {
        negate_opt(exp_ln_product(-b, e))
    }
}

/// `b^e` in the precise tier; the first matching case decides.
pub open spec fn pow_spec(b: int, e: int) -> Option<int> {
    if e == 0 {
        Some(precise_one())
    } else if b == precise_one() {
        Some(precise_one())
    } else if b == 0 && e > 0 {
        Some(0)
    } else if b == 0 && e < 0 {
        None
    } else if e == precise_one() {
        Some(b)
    } else if e == -precise_one() {
        Some(pdiv(precise_one(), b))
    } else if b < 0 {
        pow_negative_base_spec(b, e)
    } else {
        exp_ln_product(b, e)
    }
}

/// Real powers of an 18-digit `Decimal`, computed in the precise tier.
pub trait PowerDecimal {
    fn pow(&self, exp: Decimal) -> Option<Decimal>;
}

/// Real powers of a 36-digit `PreciseDecimal`.
pub trait PowerPreciseDecimal {
    fn pow(&self, exp: PreciseDecimal) -> Option<PreciseDecimal>;
}

/// The truncated quotient by the unit recovers `e` exactly when `e` is whole.
proof fn lemma_whole_iff(e: int)
    ensures
        fits_i256(e) ==> fits_i256(tdiv(e, precise_one()) * precise_one()),
        (tdiv(e, precise_one()) * precise_one() == e) == is_whole(e),
{
    let one = precise_one();
    let q = abs(e) / one;
    let r = abs(e) % one;
    vstd::arithmetic::div_mod::lemma_fundamental_div_mod(abs(e), one);
    vstd::arithmetic::div_mod::lemma_mod_bound(abs(e), one);
    vstd::arithmetic::div_mod::lemma_div_pos_is_pos(abs(e), one);
    assert(one * q == q * one) by (nonlinear_arith);
    if e >= 0 {
        if r == 0 {
            vstd::arithmetic::div_mod::lemma_mod_multiples_basic(q, one);
        }
    } else {
        assert(tdiv(e, one) * one == -(q * one)) by (nonlinear_arith)
            requires
                tdiv(e, one) == -q,
        ;
        if r == 0 {
            vstd::arithmetic::div_mod::lemma_mod_multiples_basic(-q, one);
            assert(-q * one == -(q * one)) by (nonlinear_arith);
        } else {
            vstd::arithmetic::div_mod::lemma_fundamental_div_mod_converse_mod(e, one, -q - 1, one - r);
            assert((-q - 1) * one == -(q * one) - one) by (nonlinear_arith);
        }
    }
}

/// The parity of an integer, read from its lowest digit.
proof fn lemma_parity_from_digit(n: I256)
    ensures
        (n@ % 2 == 0) == (n.d0 % 2 == 0),
{
    let b = crate::fixed::digit_base();
    let hi = n.d1 + b * (n.d2 + b * n.d3) - (if n.d3 >= 0x8000_0000_0000_0000 { b * b * b } else { 0 });
    assert(n@ == n.d0 + b * hi);
    assert(b == 2 * 0x8000_0000_0000_0000int);
    vstd::arithmetic::div_mod::lemma_mod_multiples_vanish(0x8000_0000_0000_0000int * hi, n.d0 as int, 2);
    assert(2 * (0x8000_0000_0000_0000int * hi) == b * hi) by (nonlinear_arith)
        requires
            b == 2 * 0x8000_0000_0000_0000int,
    ;
}

/// `exp(ln(b) * e)` for positive `b`.
fn exp_of_ln_product(b: PreciseDecimal, e: PreciseDecimal) -> (res: Option<PreciseDecimal>)
    ensures
        precise_opt(res) == exp_ln_product(b@, e@),
        res matches Some(v) ==> v@ >= 0,
{
    match b.ln() {
        Some(l) => match l.checked_mul(e) {
            Some(y) => y.exp(),
            None => None,
        },
        None => None,
    }
}

/// `base^exp` for a negative base.
fn pow_negative_base(base: PreciseDecimal, exp: PreciseDecimal) -> (res: Option<PreciseDecimal>)
    requires
        base@ < 0,
    ensures
        precise_opt(res) == pow_negative_base_spec(base@, exp@),
{
    let zero = PreciseDecimal::zero();
    let one = PreciseDecimal::one();
    let n = exp.0.div(one.0);
    proof {
        crate::fixed::lemma_i256_range(exp.0);
        crate::fixed::lemma_i256_range(base.0);
        lemma_tdiv_abs(exp@, precise_one());
        lemma_whole_iff(exp@);
    }
    let whole = PreciseDecimal(n.mul(one.0));
    proof {
        if whole@ == exp@ {
            lemma_precise_view_injective(whole, exp);
        }
    }
    if whole != exp {
        return None;
    }
    let is_even = n.d0 % 2 == 0;
    proof {
        lemma_parity_from_digit(n);
    }
    let magnitude = match zero.checked_sub(base) {
        Some(a) => a,
        None => return None,
    };
    let pow = exp_of_ln_product(magnitude, exp);
    if is_even {
        return pow;
    }
    match pow {
        Some(m) => {
            proof {
                lemma_pmul_by_units(m@, -1);
                assert((-precise_one()) * m@ == m@ * (-1 * precise_one())) by (nonlinear_arith);
            }
            Some(PreciseDecimal::minus_one().product(m))
        },
        None => None,
    }
}

impl PowerPreciseDecimal for PreciseDecimal {
    /// `self^exp`: one for a zero exponent or a unit base; zero, or absent,
    /// for a zero base with a positive, or negative, exponent; the base for
    /// exponent one and its reciprocal for minus one; for a negative base,
    /// absent unless the exponent is whole, otherwise `exp(ln(|base|) * exp)`
    /// with the sign of the exponent's parity; else `exp(ln(base) * exp)`.
    fn pow(&self, exp: PreciseDecimal) -> (res: Option<PreciseDecimal>)
        ensures
            precise_opt(res) == pow_spec(self@, exp@),
    {
        let zero = PreciseDecimal::zero();
        let one = PreciseDecimal::one();
        let minus_one = PreciseDecimal::minus_one();
        let base = *self;
        proof {
            crate::fixed::lemma_i256_range(base.0);
            if exp@ == 0 {
                lemma_precise_view_injective(exp, zero);
            }
            if base@ == precise_one() {
                lemma_precise_view_injective(base, one);
            }
            if base@ == 0 {
                lemma_precise_view_injective(base, zero);
            }
            if exp@ == precise_one() {
                lemma_precise_view_injective(exp, one);
            }
            if exp@ == -precise_one() {
                lemma_precise_view_injective(exp, minus_one);
            }
        }
        if exp == zero {
            return Some(one);
        }
        if base == one {
            return Some(one);
        }
        if base == zero && zero.lt(exp) {
            return Some(zero);
        }
        if base == zero && exp.lt(zero) {
            return None;
        }
        if exp == one {
            return Some(base);
        }
        if exp == minus_one {
            proof {
                lemma_tdiv_abs(precise_one() * precise_one(), base@);
            }
            return one.checked_div(base);
        }
        if base.lt(zero) {
            return pow_negative_base(base, exp);
        }
        exp_of_ln_product(base, exp)
    }
}

impl PowerDecimal for Decimal {
    /// The precise-tier power of the widened operands, truncated back.
    fn pow(&self, exp: Decimal) -> (res: Option<Decimal>)
        ensures
            decimal_opt(res) == narrow_opt(pow_spec(widen(self@), widen(exp@))),
    {
        let e = PreciseDecimal::from_decimal(exp);
        let b = PreciseDecimal::from_decimal(*self);
        match b.pow(e) {
            Some(v) => Decimal::try_from_precise(v),
            None => None,
        }
    }
}

/// `pow(b, 0) == 1` for every base and `pow(1, e) == 1` for every
/// exponent, in both tiers.
pub proof fn lemma_pow_anchors(b: int, e: int)
    ensures
        pow_spec(b, 0) == Some(precise_one()),
        pow_spec(precise_one(), e) == Some(precise_one()),
        narrow_opt(pow_spec(widen(b), widen(0))) == Some(decimal_one()),
        narrow_opt(pow_spec(widen(decimal_one()), widen(e))) == Some(decimal_one()),
{
    lemma_narrow_widen(decimal_one());
}

/// A decimal exponent with a fractional part stays fractional when widened.
proof fn lemma_widen_keeps_fraction(e: int)
    requires
        e % decimal_one() != 0,
    ensures
        !is_whole(widen(e)),
{
    let r = decimal_one();
    let q = widen(e) / precise_one();
    if is_whole(widen(e)) {
        vstd::arithmetic::div_mod::lemma_fundamental_div_mod(widen(e), precise_one());
        assert(e * r == (q * r) * r) by (nonlinear_arith)
            requires
                e * r == precise_one() * q,
                precise_one() == r * r,
        ;
        assert(e == q * r) by (nonlinear_arith)
            requires
                e * r == (q * r) * r,
                r > 0,
        ;
        vstd::arithmetic::div_mod::lemma_mod_multiples_basic(q, r);
    }
}

/// A zero base with a negative exponent, and a negative base with an
/// exponent that is not whole, give no power, in both tiers.
pub proof fn lemma_pow_domain(b: int, e: int)
    ensures
        e < 0 ==> pow_spec(0, e) is None,
        e < 0 ==> narrow_opt(pow_spec(widen(0), widen(e))) is None,
        b < 0 && !is_whole(e) ==> pow_spec(b, e) is None,
        b < 0 && e % decimal_one() != 0 ==> narrow_opt(pow_spec(widen(b), widen(e))) is None,
{
    let one = precise_one();
    vstd::arithmetic::div_mod::lemma_mod_multiples_basic(0, one);
    vstd::arithmetic::div_mod::lemma_mod_multiples_basic(1, one);
    vstd::arithmetic::div_mod::lemma_mod_multiples_basic(-1, one);
    if b < 0 && e % decimal_one() != 0 {
        lemma_widen_keeps_fraction(e);
    }
}

/// For a negative base and a whole exponent other than `0` and `±1`, the
/// power is the power of the base's magnitude, negated for odd exponents.
pub proof fn lemma_negative_base_parity(b: int, e: int)
    requires
        b < 0,
        fits_i256(-b),
        is_whole(e),
        e != 0,
        e != precise_one(),
        e != -precise_one(),
    ensures
        pow_spec(b, e) == if tdiv(e, precise_one()) % 2 == 0 {
            pow_spec(-b, e)
        } else {
            negate_opt(pow_spec(-b, e))
        },
{
    if -b == precise_one() {
        crate::logarithm::lemma_log_anchors();
        assert(pmul(0, e) == 0);
        assert(exp_ln_product(precise_one(), e) == Some(precise_one()));
    }
}

} // verus!
