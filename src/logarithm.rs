//! Natural, binary, decimal and arbitrary-base logarithms.
//!
//! `ln` follows the classic range-reduction scheme: write `x = 2^k * r` with
//! `r` in `[sqrt(2)/2, sqrt(2)]`, approximate `ln(r)` with a Remez polynomial
//! in `s = (r - 1) / (r + 1)`, and add back `k * ln(2)`. Every step is a
//! fixed-point operation in the 36-digit tier.

use vstd::arithmetic::power2::pow2;
use vstd::prelude::*;

use crate::fixed::{
    abs, decimal_one, decimal_opt, precise_opt, fits_i256, lemma_i256_view_injective, lemma_pdiv_within, lemma_pmul_by_units,
    lemma_pmul_within, lemma_sum_within, lemma_tdiv_abs, lemma_within_fits, narrow, narrow_opt,
    pdiv, pmul, precise_one, tdiv, widen, within, Decimal, I256, PreciseDecimal,
};

verus! {

/// `ln(2)`, in subunits.
pub open spec fn spec_ln2() -> int {
    693147180559945309417232121458176568
}

/// `ln(10)`, in subunits.
pub open spec fn spec_ln10() -> int {
    2302585092994045684017991454684364207
}

/// `sqrt(2)`, in subunits.
pub open spec fn spec_sqrt() -> int {
    1414213562373095048801688724209698078
}

/// `sqrt(2) / 2`, in subunits.
pub open spec fn spec_sqrt_half() -> int {
    707106781186547524400844362104849039
}

/// Coefficients of the Remez polynomial for `ln`, in subunits.
pub open spec fn spec_lg(i: int) -> int {
    if i == 1 {
        666666666666673513000000000000000000
    } else if i == 2 {
        399999999994094190800000000000000000
    } else if i == 3 {
        285714287436623914900000000000000000
    } else if i == 4 {
        222221984321497839600000000000000000
    } else if i == 5 {
        181835721616180501200000000000000000
    } else if i == 6 {
        153138376992093733200000000000000000
    } else {
        147981986051165859100000000000000000
    }
}

/// `ln(2)`.
pub fn ln2() -> (r: PreciseDecimal)
    ensures
        r@ == spec_ln2(),
{
    PreciseDecimal(I256 { d0: 9456716947207598648, d1: 37575583950764745, d2: 0, d3: 0 })
}

/// `ln(10)`.
pub fn ln10() -> (r: PreciseDecimal)
    ensures
        r@ == spec_ln10(),
{
    PreciseDecimal(I256 { d0: 5541036900753882543, d1: 124823388007844079, d2: 0, d3: 0 })
}

/// `sqrt(2)`.
pub fn sqrt() -> (r: PreciseDecimal)
    ensures
        r@ == spec_sqrt(),
{
    PreciseDecimal(I256 { d0: 1327104860269872414, d1: 76664670834168704, d2: 0, d3: 0 })
}

/// `sqrt(2) / 2`.
pub fn sqrt_half() -> (r: PreciseDecimal)
    ensures
        r@ == spec_sqrt_half(),
{
    PreciseDecimal(I256 { d0: 663552430134936207, d1: 38332335417084352, d2: 0, d3: 0 })
}

/// The `i`-th coefficient of the Remez polynomial for `ln`, for `i` in `1..=7`.
pub fn lg(i: u8) -> (r: PreciseDecimal)
    requires
        1 <= i <= 7,
    ensures
        r@ == spec_lg(i as int),
{
    let d: (u64, u64) = if i == 1 {
        (5055430527260295168, 36140072416183852)
    } else if i == 2 {
        (2248709976116166656, 21684043449389934)
    } else if i == 3 {
        (13181567332964761600, 15488602557446775)
    } else if i == 4 {
        (2499210515169411072, 12046677908770383)
    } else if i == 5 {
        (17386691845568331776, 9857334220586614)
    } else if i == 6 {
        (12367983804995338240, 8301648051286610)
    } else {
        (16555524861002645504, 8022119538269681)
    };
    PreciseDecimal(I256 { d0: d.0, d1: d.1, d2: 0, d3: 0 })
}

/// `x` scaled by `2^-k`: divided (rounding down) for `k >= 0`, multiplied for `k < 0`.
pub open spec fn scaled(x: int, k: int) -> int {
    if k >= 0 {
        x / (pow2(k as nat) as int)
    } else {
        x * pow2((-k) as nat)
    }
}

/// `k` reduces the positive `x`: `x` scaled by `2^-k` lands in
/// `[sqrt(2)/2, sqrt(2)]`, with `k` the smallest such exponent for `x >= 1`
/// and the largest for `x < 1`.
pub open spec fn is_reduction(x: int, k: int) -> bool {
    &&& spec_sqrt_half() <= scaled(x, k) <= spec_sqrt()
    &&& x >= precise_one() ==> k >= 0 && (k > 0 ==> scaled(x, k - 1) > spec_sqrt())
    &&& x < precise_one() ==> k <= 0 && (k < 0 ==> scaled(x, k + 1) < spec_sqrt_half())
}

/// The exponent that reduces `x` (unique, by `lemma_reduction_unique`).
pub open spec fn reduction_exponent(x: int) -> int {
    choose|k: int| is_reduction(x, k)
}

/// `ln` of `2^k * r`, from the reduced mantissa `r`, as fixed-point steps.
pub open spec fn ln_of_reduced(k: int, r: int) -> int {
    let f = r - precise_one();
    let s = pdiv(f, 2 * precise_one() + f);
    let z = pmul(s, s);
    let w = pmul(z, z);
    let odd = pmul(z, spec_lg(1) + pmul(w, spec_lg(3) + pmul(w, spec_lg(5) + pmul(w, spec_lg(7)))));
    let even = pmul(w, spec_lg(2) + pmul(w, spec_lg(4) + pmul(w, spec_lg(6))));
    let remez = odd + even;
    pmul(spec_ln2(), k * precise_one()) + f - pmul(s, f - remez)
}

/// The computed natural logarithm of a positive `x`, in subunits.
pub open spec fn ln_value(x: int) -> int {
    let k = reduction_exponent(x);
    ln_of_reduced(k, scaled(x, k))
}

/// The natural logarithm: absent exactly for non-positive `x`.
pub open spec fn ln_spec(x: int) -> Option<int> {
    if x > 0 {
        Some(ln_value(x))
    } else {
        None
    }
}

/// The base-2 logarithm: `ln(x) / ln(2)`.
pub open spec fn log2_spec(x: int) -> Option<int> {
    match ln_spec(x) {
        Some(l) => Some(pdiv(l, spec_ln2())),
        None => None,
    }
}

/// The base-10 logarithm: `ln(x) / ln(10)`, both logarithms computed.
pub open spec fn log10_spec(x: int) -> Option<int> {
    match ln_spec(x) {
        Some(l) => Some(pdiv(l, ln_value(10 * precise_one()))),
        None => None,
    }
}

/// The base-`b` logarithm: `ln(x) / ln(b)`, absent where either logarithm is
/// absent or `ln(b)` is zero.
pub open spec fn log_base_spec(x: int, b: int) -> Option<int> {
    match (ln_spec(x), ln_spec(b)) {
        (Some(lx), Some(lb)) => if lb == 0 {
            None
        } else {
            Some(pdiv(lx, lb))
        },
        _ => None,
    }
}

proof fn lemma_scaled_nonincreasing(x: int, j: int, k: int)
    requires
        x >= 0,
        0 <= j <= k,
    ensures
        scaled(x, j) >= scaled(x, k),
{
    if j < k {
        vstd::arithmetic::power2::lemma_pow2_strictly_increases(j as nat, k as nat);
    }
    vstd::arithmetic::power2::lemma_pow2_pos(j as nat);
    vstd::arithmetic::div_mod::lemma_div_is_ordered_by_denominator(x, pow2(j as nat) as int, pow2(k as nat) as int);
}

proof fn lemma_scaled_nondecreasing_below(x: int, j: int, k: int)
    requires
        x >= 0,
        j <= k <= 0,
    ensures
        scaled(x, j) >= scaled(x, k),
{
    vstd::arithmetic::power2::lemma2_to64();
    if j < k {
        vstd::arithmetic::power2::lemma_pow2_strictly_increases((-k) as nat, (-j) as nat);
        assert(x * pow2((-k) as nat) <= x * pow2((-j) as nat)) by (nonlinear_arith)
            requires
                x >= 0,
                pow2((-k) as nat) <= pow2((-j) as nat),
        ;
        if k == 0 {
            assert(x / 1 == x);
            assert(scaled(x, k) == x);
            assert(x * pow2(0) == x);
        }
    }
}

/// At most one exponent reduces a given positive `x`.
pub proof fn lemma_reduction_unique(x: int, j: int, k: int)
    requires
        x > 0,
        is_reduction(x, j),
        is_reduction(x, k),
    ensures
        j == k,
{
    if x >= precise_one() {
        if j < k {
            lemma_scaled_nonincreasing(x, j, k - 1);
        } else if k < j {
            lemma_scaled_nonincreasing(x, k, j - 1);
        }
    } else {
        if j < k {
            lemma_scaled_nondecreasing_below(x, j + 1, k);
        } else if k < j {
            lemma_scaled_nondecreasing_below(x, k + 1, j);
        }
    }
}

/// The reduction of `0 < x < sqrt(2)/2`, where `a` and `b` index the highest
/// set bits of `x` and of `sqrt(2)/2`: shifting `x` left by `b - a` bits, and
/// by one more where that still falls short.
#[verifier::rlimit(40)]
proof fn lemma_reduce_below_half(x: int, a: int, b: int)
    requires
        0 < x < spec_sqrt_half(),
        0 <= a < 256,
        0 <= b < 256,
        pow2(a as nat) <= x < pow2((a + 1) as nat),
        pow2(b as nat) <= spec_sqrt_half() < pow2((b + 1) as nat),
    ensures
        0 <= b - a < 256,
        fits_i256(precise_one() * pow2((b - a) as nat)),
        fits_i256(x * pow2((b - a) as nat)),
        fits_i256(2 * (x * pow2((b - a) as nat))),
        scaled(x, a - b) == x * pow2((b - a) as nat),
        scaled(x, a - b - 1) == 2 * (x * pow2((b - a) as nat)),
        x * pow2((b - a) as nat) >= spec_sqrt_half() ==> is_reduction(x, a - b),
        x * pow2((b - a) as nat) < spec_sqrt_half() ==> is_reduction(x, a - b - 1),
{
    let k = b - a;
    if a > b {
        vstd::arithmetic::power2::lemma_pow2_strictly_increases((b + 1) as nat, a as nat);
    }
    vstd::arithmetic::power2::lemma2_to64();
    vstd::arithmetic::power2::lemma_pow2_pos(k as nat);
    vstd::arithmetic::power2::lemma_pow2_adds(a as nat, k as nat);
    vstd::arithmetic::power2::lemma_pow2_adds((a + 1) as nat, k as nat);
    vstd::arithmetic::power2::lemma_pow2_unfold((b + 1) as nat);
    vstd::arithmetic::power2::lemma_pow2_unfold((k + 1) as nat);
    if k < b {
        vstd::arithmetic::power2::lemma_pow2_strictly_increases(k as nat, b as nat);
    }
    let p = pow2(k as nat) as int;
    let r = x * p;
    assert(precise_one() * p <= precise_one() * pow2(b as nat)) by (nonlinear_arith)
        requires
            p <= pow2(b as nat),
    ;
    assert(pow2(a as nat) * p <= r < pow2((a + 1) as nat) * p) by (nonlinear_arith)
        requires
            pow2(a as nat) <= x < pow2((a + 1) as nat),
            p > 0,
            r == x * p,
    ;
    assert(x * pow2((k + 1) as nat) == 2 * r) by (nonlinear_arith)
        requires
            pow2((k + 1) as nat) == 2 * p,
            r == x * p,
    ;
    if k == 0 {
        assert(scaled(x, 0) == x / 1);
        assert(x / 1 == x);
        assert(pow2(0) == 1);
        assert(p == 1);
        assert(r == x);
    } else {
        assert(scaled(x, a - b) == r);
    }
    assert(scaled(x, a - b) == r);
    if r >= spec_sqrt_half() && k > 0 {
        vstd::arithmetic::power2::lemma_pow2_unfold(k as nat);
        vstd::arithmetic::power2::lemma_pow2_adds((a + 1) as nat, (k - 1) as nat);
        vstd::arithmetic::power2::lemma_pow2_pos((k - 1) as nat);
        assert(x * pow2((k - 1) as nat) < pow2((a + 1) as nat) * pow2((k - 1) as nat)) by (nonlinear_arith)
            requires
                x < pow2((a + 1) as nat),
                pow2((k - 1) as nat) > 0,
        ;
        if k == 1 {
            assert(scaled(x, a - b + 1) == x / 1);
            assert(x / 1 == x);
        }
    }
}

/// The reduction of `x >= 1`, where `c` indexes the highest set bit of the
/// integer part: dividing by `2^c`, and by one more `2` where that stays
/// above `sqrt(2)`.
proof fn lemma_reduce_from_one(x: int, c: int)
    requires
        x >= precise_one(),
        fits_i256(x),
        0 <= c < 256,
        pow2(c as nat) <= x / precise_one() < pow2((c + 1) as nat),
    ensures
        fits_i256(precise_one() * pow2(c as nat)),
        pow2(c as nat) * precise_one() > 0,
        pdiv(x, pow2(c as nat) * precise_one()) == scaled(x, c),
        0 <= scaled(x, c) <= x,
        scaled(x, c) <= spec_sqrt() ==> is_reduction(x, c),
        scaled(x, c) > spec_sqrt() ==> is_reduction(x, c + 1) && scaled(x, c + 1) == scaled(x, c) / 2,
{
    let one = precise_one();
    let p = pow2(c as nat) as int;
    let fi = x / one;
    vstd::arithmetic::power2::lemma_pow2_pos(c as nat);
    vstd::arithmetic::power2::lemma_pow2_unfold((c + 1) as nat);
    vstd::arithmetic::div_mod::lemma_fundamental_div_mod(x, one);
    assert(p * one <= fi * one) by (nonlinear_arith)
        requires
            p <= fi,
            one > 0,
    ;
    assert(x < (2 * one) * p) by (nonlinear_arith)
        requires
            x < fi * one + one,
            fi < pow2((c + 1) as nat),
            pow2((c + 1) as nat) == 2 * p,
            one > 0,
    ;
    assert(one * p == p * one);
    let r = x / p;
    vstd::arithmetic::div_mod::lemma_div_multiples_vanish_quotient(one, x, p);
    assert(x * one == one * x);
    vstd::arithmetic::div_mod::lemma_div_is_ordered_by_denominator(x, 1, p);
    assert(x / 1 == x);
    vstd::arithmetic::div_mod::lemma_div_is_ordered(p * one, x, p);
    vstd::arithmetic::div_mod::lemma_div_multiples_vanish(one, p);
    assert(p * one == one * p);
    vstd::arithmetic::div_mod::lemma_multiply_divide_lt(x, p, 2 * one);
    assert(one <= r < 2 * one);
    if r <= spec_sqrt() && c > 0 {
        let q = pow2((c - 1) as nat) as int;
        vstd::arithmetic::power2::lemma_pow2_unfold(c as nat);
        vstd::arithmetic::power2::lemma_pow2_pos((c - 1) as nat);
        vstd::arithmetic::div_mod::lemma_div_is_ordered(p * one, x, q);
        assert(p * one == (2 * one) * q) by (nonlinear_arith)
            requires
                p == 2 * q,
        ;
        vstd::arithmetic::div_mod::lemma_div_multiples_vanish(2 * one, q);
        assert(q * (2 * one) == (2 * one) * q);
    }
    if r > spec_sqrt() {
        vstd::arithmetic::div_mod::lemma_div_denominator(x, p, 2);
        assert(pow2((c + 1) as nat) == p * 2);
    }
}

/// Splits a positive `x` into `(k, r)` with `x = 2^k * r` and `r` in
/// `[sqrt(2)/2, sqrt(2)]`; where `x >= 1` the division by `2^k` rounds down.
fn log_reduce_argument(number: PreciseDecimal) -> (res: (i32, PreciseDecimal))
    requires
        number@ > 0,
    ensures
        is_reduction(number@, res.0 as int),
        res.0 == reduction_exponent(number@),
        res.1@ == scaled(number@, res.0 as int),
        -260 <= res.0 <= 260,
{
    let ghost x = number@;
    let one = PreciseDecimal::one();
    let half = sqrt_half();
    let full_integer = number.0.div(one.0);
    let zero = I256::zero();
    proof {
        lemma_tdiv_abs(x, precise_one());
        crate::fixed::lemma_i256_range(number.0);
        vstd::arithmetic::div_mod::lemma_fundamental_div_mod(x, precise_one());
        vstd::arithmetic::div_mod::lemma_mod_bound(x, precise_one());
    }
    let res = if full_integer == zero {
        if !number.lt(half) {
            proof {
                vstd::arithmetic::power2::lemma2_to64();
                assert(x / 1 == x);
                assert(scaled(x, 0) == x);
            }
            (0i32, number)
        } else {
            let lz_x = number.0.leading_zeros();
            let lz_half = half.0.leading_zeros();
            proof {
                lemma_reduce_below_half(x, 255 - lz_x, 255 - lz_half);
            }
            let k = lz_x as i32 - lz_half as i32;
            let unit = PreciseDecimal(one.0.shl(k as u32));
            proof {
                lemma_pmul_by_units(x, pow2(k as nat) as int);
                assert(unit@ == pow2(k as nat) * precise_one());
            }
            let r = number.product(unit);
            if !r.lt(half) {
                (-k, r)
            } else {
                proof {
                    lemma_pmul_by_units(r@, 2);
                }
                (-k - 1, r.product(PreciseDecimal::two()))
            }
        }
    } else {
        proof {
            if full_integer@ == 0 {
                lemma_i256_view_injective(full_integer, zero);
            }
        }
        let lz = full_integer.leading_zeros();
        let k = 255 - lz as i32;
        proof {
            lemma_reduce_from_one(x, k as int);
        }
        let unit = PreciseDecimal(one.0.shl(k as u32));
        proof {
            assert(unit@ == pow2(k as nat) * precise_one());
        }
        let r = number.quotient(unit);
        if !sqrt().lt(r) {
            (k, r)
        } else {
            proof {
                lemma_pdiv_by_two(r@);
            }
            (k + 1, r.quotient(PreciseDecimal::two()))
        }
    };
    proof {
        assert(is_reduction(x, res.0 as int));
        lemma_reduction_unique(x, res.0 as int, reduction_exponent(x));
    }
    res
}

/// Dividing a non-negative value by the fixed-point `2` halves it, rounding down.
proof fn lemma_pdiv_by_two(a: int)
    requires
        a >= 0,
    ensures
        pdiv(a, 2 * precise_one()) == a / 2,
{
    let one = precise_one();
    vstd::arithmetic::div_mod::lemma_div_multiples_vanish_quotient(one, a, 2);
    assert(a * one == one * a);
    assert(one * 2 == 2 * one);
}

/// Logarithms of an 18-digit `Decimal`, computed in the precise tier.
pub trait LogarithmDecimal {
    fn ln(&self) -> Option<Decimal>;

    fn log2(&self) -> Option<Decimal>;

    fn log10(&self) -> Option<Decimal>;

    fn log_base(&self, base: Decimal) -> Option<Decimal>;
}

/// Logarithms of a 36-digit `PreciseDecimal`.
pub trait LogarithmPreciseDecimal {
    fn ln(&self) -> Option<PreciseDecimal>;

    fn log2(&self) -> Option<PreciseDecimal>;

    fn log10(&self) -> Option<PreciseDecimal>;

    fn log_base(&self, base: PreciseDecimal) -> Option<PreciseDecimal>;
}

/// `ln(2^k * r)` from the reduced form, with every step bounded.
fn ln_reduced(k: i32, r: PreciseDecimal) -> (res: PreciseDecimal)
    requires
        -260 <= k <= 260,
        spec_sqrt_half() <= r@ <= spec_sqrt(),
    ensures
        res@ == ln_of_reduced(k as int, r@),
        within(res@, 270),
{
    let one = PreciseDecimal::one();
    let f = r.difference(one);
    assert(within(f@, 1));
    let two_plus_f = PreciseDecimal::two().sum(f);
    proof {
        lemma_pdiv_within(f@, two_plus_f@, 1, 1);
        lemma_within_fits(pdiv(f@, two_plus_f@), 1);
    }
    let s = f.quotient(two_plus_f);
    proof {
        lemma_pmul_within(s@, s@, 1, 1);
        lemma_within_fits(pmul(s@, s@), 1);
    }
    let z = s.product(s);
    proof {
        lemma_pmul_within(z@, z@, 1, 1);
        lemma_within_fits(pmul(z@, z@), 1);
    }
    let w = z.product(z);
    // odd-indexed coefficients, in z
    let lg7 = lg(7);
    proof {
        lemma_pmul_within(w@, lg7@, 1, 1);
        lemma_within_fits(pmul(w@, lg7@), 1);
    }
    let t = w.product(lg7);
    let lg5 = lg(5);
    proof {
        lemma_sum_within(lg5@, t@, 1, 1);
        lemma_within_fits(lg5@ + t@, 2);
    }
    let t = lg5.sum(t);
    proof {
        lemma_pmul_within(w@, t@, 1, 2);
        lemma_within_fits(pmul(w@, t@), 2);
    }
    let t = w.product(t);
    let lg3 = lg(3);
    proof {
        lemma_sum_within(lg3@, t@, 1, 2);
        lemma_within_fits(lg3@ + t@, 3);
    }
    let t = lg3.sum(t);
    proof {
        lemma_pmul_within(w@, t@, 1, 3);
        lemma_within_fits(pmul(w@, t@), 3);
    }
    let t = w.product(t);
    let lg1 = lg(1);
    proof {
        lemma_sum_within(lg1@, t@, 1, 3);
        lemma_within_fits(lg1@ + t@, 4);
    }
    let t = lg1.sum(t);
    proof {
        lemma_pmul_within(z@, t@, 1, 4);
        lemma_within_fits(pmul(z@, t@), 4);
    }
    let odd = z.product(t);
    // even-indexed coefficients, in w
    let lg6 = lg(6);
    proof {
        lemma_pmul_within(w@, lg6@, 1, 1);
        lemma_within_fits(pmul(w@, lg6@), 1);
    }
    let e = w.product(lg6);
    let lg4 = lg(4);
    proof {
        lemma_sum_within(lg4@, e@, 1, 1);
        lemma_within_fits(lg4@ + e@, 2);
    }
    let e = lg4.sum(e);
    proof {
        lemma_pmul_within(w@, e@, 1, 2);
        lemma_within_fits(pmul(w@, e@), 2);
    }
    let e = w.product(e);
    let lg2 = lg(2);
    proof {
        lemma_sum_within(lg2@, e@, 1, 2);
        lemma_within_fits(lg2@ + e@, 3);
    }
    let e = lg2.sum(e);
    proof {
        lemma_pmul_within(w@, e@, 1, 3);
        lemma_within_fits(pmul(w@, e@), 3);
    }
    let even = w.product(e);
    proof {
        lemma_sum_within(odd@, even@, 4, 3);
        lemma_within_fits(odd@ + even@, 7);
    }
    let remez = odd.sum(even);
    proof {
        lemma_sum_within(f@, remez@, 1, 7);
        lemma_within_fits(f@ - remez@, 8);
    }
    let g = f.difference(remez);
    proof {
        lemma_pmul_within(s@, g@, 1, 8);
        lemma_within_fits(pmul(s@, g@), 8);
    }
    let correction = s.product(g);
    let kk = PreciseDecimal::from_i32(k);
    proof {
        lemma_pmul_by_units(spec_ln2(), k as int);
        assert(within(spec_ln2() * k, 260)) by (nonlinear_arith)
            requires
                -260 <= k <= 260,
                0 < spec_ln2() < precise_one(),
                precise_one() > 0,
        ;
        lemma_within_fits(spec_ln2() * k, 260);
    }
    let k_ln2 = ln2().product(kk);
    proof {
        lemma_sum_within(k_ln2@, f@, 260, 1);
        lemma_within_fits(k_ln2@ + f@, 261);
    }
    let acc = k_ln2.sum(f);
    proof {
        lemma_sum_within(acc@, correction@, 261, 8);
        lemma_within_fits(acc@ - correction@, 269);
    }
    acc.difference(correction)
}

impl LogarithmPreciseDecimal for PreciseDecimal {
    /// Absent exactly for non-positive input; otherwise the reduced-argument
    /// approximation of `ln`, which lies within 270 of zero.
    fn ln(&self) -> (res: Option<PreciseDecimal>)
        ensures
            precise_opt(res) == ln_spec(self@),
            res matches Some(v) ==> within(v@, 270),
    {
        if !PreciseDecimal::zero().lt(*self) {
            return None;
        }
        let (k, r) = log_reduce_argument(*self);
        Some(ln_reduced(k, r))
    }

    /// `ln(x) / ln(2)`, absent exactly for non-positive input.
    fn log2(&self) -> (res: Option<PreciseDecimal>)
        ensures
            precise_opt(res) == log2_spec(self@),
            res matches Some(v) ==> within(v@, 540),
    {
        match self.ln() {
            Some(l) => {
                proof {
                    lemma_pdiv_within(l@, spec_ln2(), 270, 2);
                    lemma_within_fits(pdiv(l@, spec_ln2()), 540);
                }
                Some(l.quotient(ln2()))
            },
            None => None,
        }
    }

    /// `ln(x) / ln(10)`, with `ln(10)` computed as well; absent exactly for
    /// non-positive input.
    fn log10(&self) -> (res: Option<PreciseDecimal>)
        ensures
            precise_opt(res) == log10_spec(self@),
            res matches Some(v) ==> within(v@, 270),
    {
        match self.ln() {
            Some(l) => {
                let ten_ln = PreciseDecimal::from_i32(10).ln().unwrap();
                proof {
                    lemma_ln_ten();
                    lemma_pdiv_within(l@, ten_ln@, 270, 1);
                    lemma_within_fits(pdiv(l@, ten_ln@), 270);
                }
                Some(l.quotient(ten_ln))
            },
            None => None,
        }
    }

    /// `ln(x) / ln(base)`, absent exactly where `x <= 0`, `base <= 0`, or
    /// `ln(base)` is zero.
    fn log_base(&self, base: PreciseDecimal) -> (res: Option<PreciseDecimal>)
        ensures
            precise_opt(res) == log_base_spec(self@, base@),
            res is Some <==> self@ > 0 && base@ > 0 && ln_value(base@) != 0,
            res matches Some(v) ==> within(v@, 270 * precise_one()),
    {
        let base_ln = match base.ln() {
            Some(v) => v,
            None => return None,
        };
        let x_ln = match self.ln() {
            Some(v) => v,
            None => return None,
        };
        proof {
            if base_ln@ != 0 {
                lemma_quotient_within(x_ln@, base_ln@, 270);
                lemma_within_fits(pdiv(x_ln@, base_ln@), 270 * precise_one());
            }
        }
        x_ln.checked_div(base_ln)
    }
}

/// Division by a non-zero number of subunits grows a magnitude by at most
/// the scale.
proof fn lemma_quotient_within(a: int, d: int, m: int)
    requires
        within(a, m),
        d != 0,
        m >= 0,
    ensures
        within(pdiv(a, d), m * precise_one()),
{
    let one = precise_one();
    lemma_tdiv_abs(a * one, d);
    assert(abs(a * one) == abs(a) * one);
    assert(abs(a) * one <= (m * one) * one) by (nonlinear_arith)
        requires
            abs(a) <= m * one,
            one > 0,
    ;
}

/// A value within `m` units, narrowed to the `Decimal` tier, is representable.
proof fn lemma_narrow_within(v: int, m: int)
    requires
        within(v, m),
        0 <= m <= 1_000_000_000_000_000_000_000_000_000_000_000_000_000,
    ensures
        narrow(v) is Some,
        abs(tdiv(v, 1_000_000_000_000_000_000)) <= m * 1_000_000_000_000_000_000,
{
    lemma_tdiv_abs(v, 1_000_000_000_000_000_000);
    vstd::arithmetic::div_mod::lemma_div_is_ordered(abs(v), m * precise_one(), 1_000_000_000_000_000_000);
    vstd::arithmetic::div_mod::lemma_div_multiples_vanish(m * 1_000_000_000_000_000_000, 1_000_000_000_000_000_000);
}

impl LogarithmDecimal for Decimal {
    /// `ln` computed in the precise tier and truncated back; absent exactly
    /// for non-positive input.
    fn ln(&self) -> (res: Option<Decimal>)
        ensures
            decimal_opt(res) == narrow_opt(ln_spec(widen(self@))),
            res is Some <==> self@ > 0,
    {
        let p = PreciseDecimal::from_decimal(*self);
        match p.ln() {
            Some(l) => {
                proof {
                    lemma_narrow_within(l@, 270);
                }
                Decimal::try_from_precise(l)
            },
            None => None,
        }
    }

    /// `log2` computed in the precise tier and truncated back; absent exactly
    /// for non-positive input.
    fn log2(&self) -> (res: Option<Decimal>)
        ensures
            decimal_opt(res) == narrow_opt(log2_spec(widen(self@))),
            res is Some <==> self@ > 0,
    {
        let p = PreciseDecimal::from_decimal(*self);
        match p.log2() {
            Some(l) => {
                proof {
                    lemma_narrow_within(l@, 540);
                }
                Decimal::try_from_precise(l)
            },
            None => None,
        }
    }

    /// `log10` computed in the precise tier and truncated back; absent exactly
    /// for non-positive input.
    fn log10(&self) -> (res: Option<Decimal>)
        ensures
            decimal_opt(res) == narrow_opt(log10_spec(widen(self@))),
            res is Some <==> self@ > 0,
    {
        let p = PreciseDecimal::from_decimal(*self);
        match p.log10() {
            Some(l) => {
                proof {
                    lemma_narrow_within(l@, 270);
                }
                Decimal::try_from_precise(l)
            },
            None => None,
        }
    }

    /// `log_base` computed in the precise tier and truncated back; absent
    /// exactly where `x <= 0`, `base <= 0`, or `ln(base)` is zero.
    fn log_base(&self, base: Decimal) -> (res: Option<Decimal>)
        ensures
            decimal_opt(res) == narrow_opt(log_base_spec(widen(self@), widen(base@))),
            res is Some <==> self@ > 0 && base@ > 0 && ln_value(widen(base@)) != 0,
    {
        let b = PreciseDecimal::from_decimal(base);
        let p = PreciseDecimal::from_decimal(*self);
        match p.log_base(b) {
            Some(l) => {
                proof {
                    lemma_narrow_within(l@, 270 * precise_one());
                }
                Decimal::try_from_precise(l)
            },
            None => None,
        }
    }
}

/// The reduction of exactly one unit, and of two units.
proof fn lemma_reduction_of_one_and_two()
    ensures
        reduction_exponent(precise_one()) == 0,
        reduction_exponent(2 * precise_one()) == 1,
        scaled(precise_one(), 0) == precise_one(),
        scaled(2 * precise_one(), 1) == precise_one(),
{
    vstd::arithmetic::power2::lemma2_to64();
    let one = precise_one();
    assert(one / 1 == one);
    assert(scaled(one, 0) == one);
    assert(is_reduction(one, 0));
    lemma_reduction_unique(one, 0, reduction_exponent(one));
    assert((2 * one) / 2 == one);
    assert((2 * one) / 1 == 2 * one);
    assert(scaled(2 * one, 1) == one);
    assert(scaled(2 * one, 0) == 2 * one);
    assert(is_reduction(2 * one, 1));
    lemma_reduction_unique(2 * one, 1, reduction_exponent(2 * one));
}

/// `ln(1) == 0` and `log2(2) == 1`, in both tiers.
pub proof fn lemma_log_anchors()
    ensures
        ln_spec(precise_one()) == Some(0int),
        log2_spec(2 * precise_one()) == Some(precise_one()),
        log10_spec(10 * precise_one()) == Some(precise_one()),
        narrow_opt(ln_spec(widen(decimal_one()))) == Some(0int),
        narrow_opt(log2_spec(widen(2 * decimal_one()))) == Some(decimal_one()),
        narrow_opt(log10_spec(widen(10 * decimal_one()))) == Some(decimal_one()),
{
    let one = precise_one();
    lemma_reduction_of_one_and_two();
    assert(ln_value(one) == ln_of_reduced(0, one));
    assert(ln_value(2 * one) == ln_of_reduced(1, one));
    lemma_pmul_by_units(spec_ln2(), 1);
    assert(ln_of_reduced(1, one) == spec_ln2());
    assert(ln_of_reduced(0, one) == 0);
    vstd::arithmetic::div_mod::lemma_div_multiples_vanish(one, spec_ln2());
    assert(spec_ln2() * one == one * spec_ln2());
    assert(pdiv(spec_ln2(), spec_ln2()) == one);
    let ten_ln = ln_value(10 * one);
    lemma_ln_ten();
    vstd::arithmetic::div_mod::lemma_div_multiples_vanish(one, ten_ln);
    assert(ten_ln * one == one * ten_ln);
    assert(pdiv(ten_ln, ten_ln) == one);
    assert(widen(10 * decimal_one()) == 10 * one);
    assert(widen(decimal_one()) == one);
    assert(widen(2 * decimal_one()) == 2 * one);
    crate::fixed::lemma_narrow_widen(decimal_one());
    crate::fixed::lemma_narrow_widen(0);
}

/// The logarithms are absent for every non-positive input, in both tiers.
pub proof fn lemma_log_domain(x: int, b: int)
    requires
        x <= 0,
    ensures
        ln_spec(x) is None,
        log2_spec(x) is None,
        log10_spec(x) is None,
        log_base_spec(x, b) is None,
        log_base_spec(b, x) is None,
        narrow_opt(ln_spec(widen(x))) is None,
        narrow_opt(log2_spec(widen(x))) is None,
        narrow_opt(log10_spec(widen(x))) is None,
        narrow_opt(log_base_spec(widen(x), widen(b))) is None,
        narrow_opt(log_base_spec(widen(b), widen(x))) is None,
{
}

/// A logarithm to base one is absent: `ln(1)` is zero.
pub proof fn lemma_log_base_one(x: int)
    ensures
        log_base_spec(x, precise_one()) is None,
        narrow_opt(log_base_spec(widen(x), widen(decimal_one()))) is None,
{
    lemma_log_anchors();
}

/// A fixed-point product of non-negative values, pinned by its bracket.
proof fn lemma_pmul_value(a: int, b: int, q: int)
    requires
        a >= 0,
        b >= 0,
        q * precise_one() <= a * b < q * precise_one() + precise_one(),
    ensures
        pmul(a, b) == q,
{
    vstd::arithmetic::div_mod::lemma_fundamental_div_mod_converse(a * b, precise_one(), q, a * b - q * precise_one());
}

/// A fixed-point quotient of non-negative values, pinned by its bracket.
proof fn lemma_pdiv_value(a: int, d: int, q: int)
    requires
        a >= 0,
        d > 0,
        q * d <= a * precise_one() < q * d + d,
    ensures
        pdiv(a, d) == q,
{
    vstd::arithmetic::div_mod::lemma_fundamental_div_mod_converse(a * precise_one(), d, q, a * precise_one() - q * d);
}

/// The computed `ln(10)`: ten reduces to `2^3 * 1.25`.
pub proof fn lemma_ln_ten()
    ensures
        ln_value(10 * precise_one()) == 2302585092994045683924839527967823624,
{
    vstd::arithmetic::power2::lemma2_to64();
    let x = 10 * precise_one();
    assert(x / 8 == 1250000000000000000000000000000000000);
    assert(x / 4 == 2500000000000000000000000000000000000);
    assert(scaled(x, 3) == 1250000000000000000000000000000000000);
    assert(scaled(x, 2) == 2500000000000000000000000000000000000);
    assert(is_reduction(x, 3));
    lemma_reduction_unique(x, 3, reduction_exponent(x));
    lemma_pdiv_value(250000000000000000000000000000000000, 2 * precise_one() + 250000000000000000000000000000000000, 111111111111111111111111111111111111);
    lemma_pmul_value(111111111111111111111111111111111111, 111111111111111111111111111111111111, 12345679012345679012345679012345678);
    lemma_pmul_value(12345679012345679012345679012345678, 12345679012345679012345679012345678, 152415790275872580399329370522786);
    lemma_pmul_value(152415790275872580399329370522786, spec_lg(7), 22554791350581597180307879896357);
    lemma_pmul_value(152415790275872580399329370522786, spec_lg(5) + 22554791350581597180307879896357, 27718072916861923913607728681587);
    lemma_pmul_value(152415790275872580399329370522786, spec_lg(3) + 27718072916861923913607728681587, 43551593584749394425226887323377);
    lemma_pmul_value(12345679012345679012345679012345678, spec_lg(1) + 43551593584749394425226887323377, 8230990348892077313511422554164485);
    lemma_pmul_value(152415790275872580399329370522786, spec_lg(6), 23340706750814469318701417466849);
    lemma_pmul_value(152415790275872580399329370522786, spec_lg(4) + 23340706750814469318701417466849, 33873696849298682223642539463110);
    lemma_pmul_value(152415790275872580399329370522786, spec_lg(2) + 33873696849298682223642539463110, 60971478995723744777049785480789);
    lemma_pmul_value(111111111111111111111111111111111111, 250000000000000000000000000000000000 - (8230990348892077313511422554164485 + 60971478995723744777049785480789), 26856448685790244326856836406706080);
    lemma_pmul_value(spec_ln2(), 3 * precise_one(), 2079441541679835928251696364374529704);
    assert(ln_of_reduced(3, 1250000000000000000000000000000000000) == 2302585092994045683924839527967823624);
}

} // verus!
