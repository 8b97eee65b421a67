//! Fixed-point decimal numbers as plain values.
//!
//! An `I256` (or `I192`) holds a two's-complement integer as its 64-bit
//! digits, least significant first: the layout that radix-common uses for its
//! own integers. A `PreciseDecimal` is an `I256` count of `10^-36` subunits and
//! a `Decimal` an `I192` count of `10^-18` subunits. The arithmetic itself is
//! radix-common's: each operation converts its operands, makes one call, and
//! converts the result back; its contract states the call's result over the
//! integers that the values stand for.

use vstd::arithmetic::power2::pow2;
use vstd::prelude::*;

use num_traits::ToPrimitive;
use radix_common::math::{CheckedAdd, CheckedDiv, CheckedMul, CheckedSub};
use radix_common::math::{Decimal as RadixDecimal, PreciseDecimal as RadixPrecise};
use radix_common::math::{I192 as RadixI192, I256 as RadixI256};


verus! {

/// 2^64, the weight of one digit.
pub open spec fn digit_base() -> int {
    0x1_0000_0000_0000_0000int
}

/// Smallest value of a 256-bit signed integer, `-2^255`.
pub open spec fn i256_min() -> int {
    -0x8000_0000_0000_0000_0000_0000_0000_0000_0000_0000_0000_0000_0000_0000_0000_0000int
}

/// One past the largest value of a 256-bit signed integer, `2^255`.
pub open spec fn i256_bound() -> int {
    0x8000_0000_0000_0000_0000_0000_0000_0000_0000_0000_0000_0000_0000_0000_0000_0000int
}

pub open spec fn fits_i256(v: int) -> bool {
    i256_min() <= v < i256_bound()
}

/// `v` fits in 256 signed bits with room for its negation: everything but
/// `-2^255`. radix-common converts its wide intermediate results back to
/// 256 bits by magnitude, which refuses that one value.
pub open spec fn magnitude_fits_i256(v: int) -> bool {
    i256_min() < v < i256_bound()
}

/// Division truncated toward zero, as Rust's integer `/` does it.
pub open spec fn tdiv(a: int, b: int) -> int {
    let q = abs(a) / abs(b);
    if (a < 0) != (b < 0) {
        -q
    } else {
        q
    }
}

pub open spec fn abs(a: int) -> int {
    if a < 0 {
        -a
    } else {
        a
    }
}

/// A 256-bit two's-complement integer, as four 64-bit digits.
#[derive(Clone, Copy, Debug, PartialEq, Eq, Structural)]
pub struct I256 {
    pub d0: u64,
    pub d1: u64,
    pub d2: u64,
    pub d3: u64,
}

impl View for I256 {
    type V = int;

    open spec fn view(&self) -> int {
        let b = digit_base();
        let unsigned = self.d0 + b * (self.d1 + b * (self.d2 + b * self.d3));
        if self.d3 >= 0x8000_0000_0000_0000 {
            unsigned - b * b * b * b
        } else {
            unsigned
        }
    }
}

/// Two integers with the same value have the same digits.
pub proof fn lemma_i256_view_injective(a: I256, b: I256)
    requires
        a@ == b@,
    ensures
        a == b,
{
    lemma_digits_unique(a.d0 as int, a.d1 as int, a.d2 as int, a.d3 as int, b.d0 as int, b.d1 as int, b.d2 as int, b.d3 as int);
}

proof fn lemma_digits_unique(a0: int, a1: int, a2: int, a3: int, b0: int, b1: int, b2: int, b3: int)
    requires
        0 <= a0 < digit_base(),
        0 <= a1 < digit_base(),
        0 <= a2 < digit_base(),
        0 <= a3 < digit_base(),
        0 <= b0 < digit_base(),
        0 <= b1 < digit_base(),
        0 <= b2 < digit_base(),
        0 <= b3 < digit_base(),
        a0 + digit_base() * (a1 + digit_base() * (a2 + digit_base() * a3)) - (if a3 >= 0x8000_0000_0000_0000 { digit_base() * digit_base() * digit_base() * digit_base() } else { 0 })
            == b0 + digit_base() * (b1 + digit_base() * (b2 + digit_base() * b3)) - (if b3 >= 0x8000_0000_0000_0000 { digit_base() * digit_base() * digit_base() * digit_base() } else { 0 }),
    ensures
        a0 == b0 && a1 == b1 && a2 == b2 && a3 == b3,
{
    let b = digit_base();
    let ua = a1 + b * (a2 + b * a3);
    let ub = b1 + b * (b2 + b * b3);
    let sa = if a3 >= 0x8000_0000_0000_0000 { b * b * b } else { 0 };
    let sb = if b3 >= 0x8000_0000_0000_0000 { b * b * b } else { 0 };
    assert(a0 + b * (ua - sa) == b0 + b * (ub - sb));
    vstd::arithmetic::div_mod::lemma_fundamental_div_mod_converse(a0 + b * (ua - sa), b, ua - sa, a0);
    vstd::arithmetic::div_mod::lemma_fundamental_div_mod_converse(b0 + b * (ub - sb), b, ub - sb, b0);
    let ta = a2 + b * a3;
    let tb = b2 + b * b3;
    let sa2 = if a3 >= 0x8000_0000_0000_0000 { b * b } else { 0 };
    let sb2 = if b3 >= 0x8000_0000_0000_0000 { b * b } else { 0 };
    assert(a1 + b * (ta - sa2) == b1 + b * (tb - sb2));
    vstd::arithmetic::div_mod::lemma_fundamental_div_mod_converse(a1 + b * (ta - sa2), b, ta - sa2, a1);
    vstd::arithmetic::div_mod::lemma_fundamental_div_mod_converse(b1 + b * (tb - sb2), b, tb - sb2, b1);
    let ra = a3 - (if a3 >= 0x8000_0000_0000_0000 { b } else { 0 });
    let rb = b3 - (if b3 >= 0x8000_0000_0000_0000 { b } else { 0 });
    assert(a2 + b * ra == b2 + b * rb);
    vstd::arithmetic::div_mod::lemma_fundamental_div_mod_converse(a2 + b * ra, b, ra, a2);
    vstd::arithmetic::div_mod::lemma_fundamental_div_mod_converse(b2 + b * rb, b, rb, b2);
}

/// Every `I256` lies in the signed 256-bit range.
pub proof fn lemma_i256_range(a: I256)
    ensures
        fits_i256(a@),
{
}

impl I256 {
    /// Relies on radix-common's `I256` division (`/`), which truncates toward
    /// zero and panics on a zero divisor or on `MIN / -1`.
    #[verifier::external_body]
    pub(crate) fn div(self, other: I256) -> (r: I256)
        requires
            other@ != 0,
            fits_i256(tdiv(self@, other@)),
        ensures
            r@ == tdiv(self@, other@),
    {
        let a = RadixI256::from_digits([self.d0, self.d1, self.d2, self.d3]);
        let b = RadixI256::from_digits([other.d0, other.d1, other.d2, other.d3]);
        let d = (a / b).to_digits();
        I256 { d0: d[0], d1: d[1], d2: d[2], d3: d[3] }
    }

    /// Relies on radix-common's `I256` product (`*`), which panics when the
    /// product leaves the 256-bit range.
    #[verifier::external_body]
    pub(crate) fn mul(self, other: I256) -> (r: I256)
        requires
            fits_i256(self@ * other@),
        ensures
            r@ == self@ * other@,
    {
        let a = RadixI256::from_digits([self.d0, self.d1, self.d2, self.d3]);
        let b = RadixI256::from_digits([other.d0, other.d1, other.d2, other.d3]);
        let d = (a * b).to_digits();
        I256 { d0: d[0], d1: d[1], d2: d[2], d3: d[3] }
    }

    /// Relies on radix-common's `I256 << u32`, a `checked_shl` that panics
    /// when the shift is 256 or more; bits shifted past the top are lost.
    #[verifier::external_body]
    pub(crate) fn shl(self, k: u32) -> (r: I256)
        requires
            k < 256,
        ensures
            fits_i256(self@ * pow2(k as nat)) ==> r@ == self@ * pow2(k as nat),
    {
        let a = RadixI256::from_digits([self.d0, self.d1, self.d2, self.d3]);
        let d = (a << k).to_digits();
        I256 { d0: d[0], d1: d[1], d2: d[2], d3: d[3] }
    }

    /// Relies on radix-common's `I256 >> u32`, an arithmetic `checked_shr`
    /// (rounding toward negative infinity) that panics when the shift is 256
    /// or more.
    #[verifier::external_body]
    pub(crate) fn shr(self, k: u32) -> (r: I256)
        requires
            k < 256,
        ensures
            r@ == self@ / (pow2(k as nat) as int),
    {
        let a = RadixI256::from_digits([self.d0, self.d1, self.d2, self.d3]);
        let d = (a >> k).to_digits();
        I256 { d0: d[0], d1: d[1], d2: d[2], d3: d[3] }
    }

    /// Relies on radix-common's `I256::leading_zeros`: the number of zero bits
    /// above the highest one bit of the 256-bit pattern.
    #[verifier::external_body]
    pub(crate) fn leading_zeros(self) -> (r: u32)
        ensures
            self@ > 0 ==> r < 256 && pow2((255 - r) as nat) <= self@ < pow2((256 - r) as nat),
            self@ == 0 ==> r == 256,
            self@ < 0 ==> r == 0,
    {
        RadixI256::from_digits([self.d0, self.d1, self.d2, self.d3]).leading_zeros()
    }

    /// Relies on num-traits' `ToPrimitive::to_i32` for radix-common's `I256`,
    /// which is `i32::try_from` on the value.
    #[verifier::external_body]
    pub(crate) fn to_i32(self) -> (r: Option<i32>)
        ensures
            r is Some <==> i32::MIN <= self@ <= i32::MAX,
            r matches Some(v) ==> v == self@,
    {
        ToPrimitive::to_i32(&RadixI256::from_digits([self.d0, self.d1, self.d2, self.d3]))
    }
}

/// Smallest value of a 192-bit signed integer, `-2^191`.
pub open spec fn i192_min() -> int {
    -0x8000_0000_0000_0000_0000_0000_0000_0000_0000_0000_0000_0000int
}

/// One past the largest value of a 192-bit signed integer, `2^191`.
pub open spec fn i192_bound() -> int {
    0x8000_0000_0000_0000_0000_0000_0000_0000_0000_0000_0000_0000int
}

pub open spec fn fits_i192(v: int) -> bool {
    i192_min() <= v < i192_bound()
}

/// `v` fits in 192 signed bits with room for its negation: everything but
/// `-2^191`, which radix-common refuses when it narrows by magnitude.
pub open spec fn magnitude_fits_i192(v: int) -> bool {
    i192_min() < v < i192_bound()
}

/// A 192-bit two's-complement integer, as three 64-bit digits.
#[derive(Clone, Copy, Debug, PartialEq, Eq, Structural)]
pub struct I192 {
    pub d0: u64,
    pub d1: u64,
    pub d2: u64,
}

impl View for I192 {
    type V = int;

    open spec fn view(&self) -> int {
        let b = digit_base();
        let unsigned = self.d0 + b * (self.d1 + b * self.d2);
        if self.d2 >= 0x8000_0000_0000_0000 {
            unsigned - b * b * b
        } else {
            unsigned
        }
    }
}

/// Every `I192` lies in the signed 192-bit range.
pub proof fn lemma_i192_range(a: I192)
    ensures
        fits_i192(a@),
{
}

/// `10^36`: the number of subunits in one unit of a `PreciseDecimal`.
pub open spec fn precise_one() -> int {
    1_000_000_000_000_000_000_000_000_000_000_000_000int
}

/// `10^18`: the number of subunits in one unit of a `Decimal`.
pub open spec fn decimal_one() -> int {
    1_000_000_000_000_000_000int
}

/// `10^18`: a `Decimal` subunit counted in `PreciseDecimal` subunits.
pub open spec fn tier_ratio() -> int {
    1_000_000_000_000_000_000int
}

/// The fixed-point product of two subunit counts: exact product, then the
/// scale divided out with truncation toward zero.
pub open spec fn pmul(a: int, b: int) -> int {
    tdiv(a * b, precise_one())
}

/// The fixed-point quotient of two subunit counts, truncated toward zero.
pub open spec fn pdiv(a: int, b: int) -> int {
    tdiv(a * precise_one(), b)
}

/// A value that is representable, as `Some`, or `None`.
pub open spec fn precise_checked(v: int) -> Option<int> {
    if fits_i256(v) {
        Some(v)
    } else {
        None
    }
}

/// A product or quotient formed in wide arithmetic, brought back to 256 bits
/// by magnitude: `None` from `-2^255` outward.
pub open spec fn precise_checked_wide(v: int) -> Option<int> {
    if magnitude_fits_i256(v) {
        Some(v)
    } else {
        None
    }
}

/// A `Decimal` widened to the precise tier: the same number, exactly.
pub open spec fn widen(d: int) -> int {
    d * tier_ratio()
}

/// A precise value narrowed to the `Decimal` tier: extra digits truncated
/// toward zero, `None` where the result's magnitude reaches `2^191`.
pub open spec fn narrow(p: int) -> Option<int> {
    let d = tdiv(p, tier_ratio());
    if magnitude_fits_i192(d) {
        Some(d)
    } else {
        None
    }
}

/// `narrow` lifted to an optional precise value.
pub open spec fn narrow_opt(p: Option<int>) -> Option<int> {
    match p {
        Some(v) => narrow(v),
        None => None,
    }
}

/// The value of an optional `PreciseDecimal`.
pub open spec fn precise_opt(r: Option<PreciseDecimal>) -> Option<int> {
    match r {
        Some(v) => Some(v@),
        None => None,
    }
}

/// The value of an optional `Decimal`.
pub open spec fn decimal_opt(r: Option<Decimal>) -> Option<int> {
    match r {
        Some(v) => Some(v@),
        None => None,
    }
}

/// A fixed-point number with 36 fractional digits: the value is the `I256`
/// count of `10^-36` subunits.
#[derive(Clone, Copy, Debug, PartialEq, Eq, Structural)]
pub struct PreciseDecimal(pub I256);

/// A fixed-point number with 18 fractional digits: the value is the `I192`
/// count of `10^-18` subunits.
#[derive(Clone, Copy, Debug, PartialEq, Eq, Structural)]
pub struct Decimal(pub I192);

impl View for PreciseDecimal {
    type V = int;

    open spec fn view(&self) -> int {
        self.0@
    }
}

impl View for Decimal {
    type V = int;

    open spec fn view(&self) -> int {
        self.0@
    }
}

/// Two precise decimals with the same value are the same.
pub proof fn lemma_precise_view_injective(a: PreciseDecimal, b: PreciseDecimal)
    requires
        a@ == b@,
    ensures
        a == b,
{
    lemma_i256_view_injective(a.0, b.0);
}

impl PreciseDecimal {
    /// Relies on radix-common's `CheckedAdd` for `PreciseDecimal`: the exact
    /// sum, or `None` outside the 256-bit range.
    #[verifier::external_body]
    pub(crate) fn checked_add(self, other: PreciseDecimal) -> (r: Option<PreciseDecimal>)
        ensures
            precise_opt(r) == precise_checked(self@ + other@),
    {
        let a = RadixPrecise::from_precise_subunits(RadixI256::from_digits([self.0.d0, self.0.d1, self.0.d2, self.0.d3]));
        let b = RadixPrecise::from_precise_subunits(RadixI256::from_digits([other.0.d0, other.0.d1, other.0.d2, other.0.d3]));
        match CheckedAdd::checked_add(a, b) {
            Some(c) => {
                let d = c.precise_subunits().to_digits();
                Some(PreciseDecimal(I256 { d0: d[0], d1: d[1], d2: d[2], d3: d[3] }))
            },
            None => None,
        }
    }

    /// Relies on radix-common's `CheckedSub` for `PreciseDecimal`: the exact
    /// difference, or `None` outside the 256-bit range.
    #[verifier::external_body]
    pub(crate) fn checked_sub(self, other: PreciseDecimal) -> (r: Option<PreciseDecimal>)
        ensures
            precise_opt(r) == precise_checked(self@ - other@),
    {
        let a = RadixPrecise::from_precise_subunits(RadixI256::from_digits([self.0.d0, self.0.d1, self.0.d2, self.0.d3]));
        let b = RadixPrecise::from_precise_subunits(RadixI256::from_digits([other.0.d0, other.0.d1, other.0.d2, other.0.d3]));
        match CheckedSub::checked_sub(a, b) {
            Some(c) => {
                let d = c.precise_subunits().to_digits();
                Some(PreciseDecimal(I256 { d0: d[0], d1: d[1], d2: d[2], d3: d[3] }))
            },
            None => None,
        }
    }

    /// Relies on radix-common's `CheckedMul` for `PreciseDecimal`: the product
    /// is formed in 384 bits, divided by `10^36` with truncation toward zero,
    /// and converted back to 256 bits by magnitude (`None` from `-2^255`
    /// outward). A product that overflows 384 bits would be out of range after
    /// the division too.
    #[verifier::external_body]
    pub(crate) fn checked_mul(self, other: PreciseDecimal) -> (r: Option<PreciseDecimal>)
        ensures
            precise_opt(r) == precise_checked_wide(pmul(self@, other@)),
    {
        let a = RadixPrecise::from_precise_subunits(RadixI256::from_digits([self.0.d0, self.0.d1, self.0.d2, self.0.d3]));
        let b = RadixPrecise::from_precise_subunits(RadixI256::from_digits([other.0.d0, other.0.d1, other.0.d2, other.0.d3]));
        match CheckedMul::checked_mul(a, b) {
            Some(c) => {
                let d = c.precise_subunits().to_digits();
                Some(PreciseDecimal(I256 { d0: d[0], d1: d[1], d2: d[2], d3: d[3] }))
            },
            None => None,
        }
    }

    /// Relies on radix-common's `CheckedDiv` for `PreciseDecimal`: the
    /// dividend times `10^36` (in 384 bits, where it always fits) divided by
    /// the divisor with truncation toward zero, and converted back to 256 bits
    /// by magnitude; `None` for a zero divisor or a quotient from `-2^255`
    /// outward.
    #[verifier::external_body]
    pub(crate) fn checked_div(self, other: PreciseDecimal) -> (r: Option<PreciseDecimal>)
        ensures
            other@ == 0 ==> r is None,
            other@ != 0 ==> precise_opt(r) == precise_checked_wide(pdiv(self@, other@)),
    {
        let a = RadixPrecise::from_precise_subunits(RadixI256::from_digits([self.0.d0, self.0.d1, self.0.d2, self.0.d3]));
        let b = RadixPrecise::from_precise_subunits(RadixI256::from_digits([other.0.d0, other.0.d1, other.0.d2, other.0.d3]));
        match CheckedDiv::checked_div(a, b) {
            Some(c) => {
                let d = c.precise_subunits().to_digits();
                Some(PreciseDecimal(I256 { d0: d[0], d1: d[1], d2: d[2], d3: d[3] }))
            },
            None => None,
        }
    }

    /// Relies on radix-common's `PartialOrd` for `PreciseDecimal`, derived
    /// from the numeric order of its `I256` subunits.
    #[verifier::external_body]
    pub(crate) fn lt(self, other: PreciseDecimal) -> (r: bool)
        ensures
            r == (self@ < other@),
    {
        let a = RadixPrecise::from_precise_subunits(RadixI256::from_digits([self.0.d0, self.0.d1, self.0.d2, self.0.d3]));
        let b = RadixPrecise::from_precise_subunits(RadixI256::from_digits([other.0.d0, other.0.d1, other.0.d2, other.0.d3]));
        a < b
    }

    /// Relies on radix-common's `From<i32>` for `PreciseDecimal`: the integer
    /// times `10^36`, which always fits.
    #[verifier::external_body]
    pub(crate) fn from_i32(k: i32) -> (r: PreciseDecimal)
        ensures
            r@ == k * precise_one(),
    {
        let d = RadixPrecise::from(k).precise_subunits().to_digits();
        PreciseDecimal(I256 { d0: d[0], d1: d[1], d2: d[2], d3: d[3] })
    }

    /// Relies on radix-common's `From<Decimal>` for `PreciseDecimal`: the
    /// subunits times `10^18`, which always fits.
    #[verifier::external_body]
    pub(crate) fn from_decimal(x: Decimal) -> (r: PreciseDecimal)
        ensures
            r@ == widen(x@),
    {
        let a = RadixDecimal::from_attos(RadixI192::from_digits([x.0.d0, x.0.d1, x.0.d2]));
        let d = RadixPrecise::from(a).precise_subunits().to_digits();
        PreciseDecimal(I256 { d0: d[0], d1: d[1], d2: d[2], d3: d[3] })
    }
}

impl Decimal {
    /// Relies on radix-common's `TryFrom<PreciseDecimal>` for `Decimal`: the
    /// value truncated toward zero to 18 fractional digits, then converted to
    /// 192 bits by magnitude, an error from `-2^191` outward.
    #[verifier::external_body]
    pub(crate) fn try_from_precise(x: PreciseDecimal) -> (r: Option<Decimal>)
        ensures
            decimal_opt(r) == narrow(x@),
    {
        let a = RadixPrecise::from_precise_subunits(RadixI256::from_digits([x.0.d0, x.0.d1, x.0.d2, x.0.d3]));
        match RadixDecimal::try_from(a) {
            Ok(c) => {
                let d = c.attos().to_digits();
                Some(Decimal(I192 { d0: d[0], d1: d[1], d2: d[2] }))
            },
            Err(_) => None,
        }
    }
}

impl I256 {
    /// The integer zero.
    pub fn zero() -> (r: I256)
        ensures
            r@ == 0,
    {
        I256 { d0: 0, d1: 0, d2: 0, d3: 0 }
    }
}

impl PreciseDecimal {
    /// `0`.
    pub fn zero() -> (r: PreciseDecimal)
        ensures
            r@ == 0,
    {
        PreciseDecimal(I256 { d0: 0, d1: 0, d2: 0, d3: 0 })
    }

    /// `1`.
    pub fn one() -> (r: PreciseDecimal)
        ensures
            r@ == precise_one(),
    {
        PreciseDecimal(I256 { d0: 12919594847110692864, d1: 54210108624275221, d2: 0, d3: 0 })
    }

    /// `2`.
    pub fn two() -> (r: PreciseDecimal)
        ensures
            r@ == 2 * precise_one(),
    {
        PreciseDecimal(I256 { d0: 7392445620511834112, d1: 108420217248550443, d2: 0, d3: 0 })
    }

    /// `-1`.
    pub fn minus_one() -> (r: PreciseDecimal)
        ensures
            r@ == -precise_one(),
    {
        PreciseDecimal(
            I256 {
                d0: 5527149226598858752,
                d1: 18392533965085276394,
                d2: 18446744073709551615,
                d3: 18446744073709551615,
            },
        )
    }
}

/// `a` is at most `m` units away from zero.
pub open spec fn within(a: int, m: int) -> bool {
    abs(a) <= m * precise_one()
}

/// A value at most `10^40` units away from zero is representable.
pub proof fn lemma_within_fits(a: int, m: int)
    requires
        within(a, m),
        m <= 10_000_000_000_000_000_000_000_000_000_000_000_000_000,
    ensures
        fits_i256(a),
        magnitude_fits_i256(a),
{
}

/// A sum's distance from zero is at most the sum of its terms' distances.
pub proof fn lemma_sum_within(a: int, b: int, ma: int, mb: int)
    requires
        within(a, ma),
        within(b, mb),
    ensures
        within(a + b, ma + mb),
        within(a - b, ma + mb),
{
}

/// Truncating division toward zero never grows the magnitude.
pub proof fn lemma_tdiv_abs(a: int, d: int)
    requires
        d != 0,
    ensures
        abs(tdiv(a, d)) == abs(a) / abs(d),
        abs(tdiv(a, d)) <= abs(a),
{
    vstd::arithmetic::div_mod::lemma_div_is_ordered_by_denominator(abs(a), 1, abs(d));
    vstd::arithmetic::div_mod::lemma_div_pos_is_pos(abs(a), abs(d));
}

/// The fixed-point product of bounded values is bounded by the product of the bounds.
pub proof fn lemma_pmul_within(a: int, b: int, ma: int, mb: int)
    requires
        within(a, ma),
        within(b, mb),
    ensures
        within(pmul(a, b), ma * mb),
{
    let one = precise_one();
    assert(abs(a * b) == abs(a) * abs(b)) by (nonlinear_arith);
    assert(abs(a) * abs(b) <= (ma * mb * one) * one) by (nonlinear_arith)
        requires
            0 <= abs(a) <= ma * one,
            0 <= abs(b) <= mb * one,
            one > 0,
    ;
    lemma_tdiv_abs(a * b, one);
    vstd::arithmetic::div_mod::lemma_div_is_ordered(abs(a) * abs(b), (ma * mb * one) * one, one);
    vstd::arithmetic::div_mod::lemma_div_multiples_vanish(ma * mb * one, one);
    assert(one * (ma * mb * one) == (ma * mb * one) * one) by (nonlinear_arith);
}

/// Dividing by at least `1/c` multiplies the bound by at most `c`.
pub proof fn lemma_pdiv_within(a: int, d: int, m: int, c: int)
    requires
        within(a, m),
        d > 0,
        c >= 0,
        c * d >= precise_one(),
    ensures
        within(pdiv(a, d), c * m),
{
    let one = precise_one();
    lemma_tdiv_abs(a * one, d);
    assert(abs(a * one) == abs(a) * one);
    assert(abs(a) * one <= abs(a) * c * d) by (nonlinear_arith)
        requires
            abs(a) >= 0,
            c * d >= one,
    ;
    vstd::arithmetic::div_mod::lemma_div_is_ordered(abs(a) * one, abs(a) * c * d, d);
    vstd::arithmetic::div_mod::lemma_div_multiples_vanish(abs(a) * c, d);
    assert(d * (abs(a) * c) == abs(a) * c * d) by (nonlinear_arith);
    assert(abs(a) * c <= c * m * one) by (nonlinear_arith)
        requires
            0 <= abs(a) <= m * one,
            c >= 0,
    ;
}

/// The fixed-point product by a whole number of units is exact.
pub proof fn lemma_pmul_by_units(a: int, n: int)
    ensures
        pmul(a, n * precise_one()) == a * n,
{
    let one = precise_one();
    assert(a * (n * one) == (a * n) * one) by (nonlinear_arith);
    assert(abs((a * n) * one) == abs(a * n) * one) by (nonlinear_arith)
        requires
            one > 0,
    ;
    vstd::arithmetic::div_mod::lemma_div_multiples_vanish(abs(a * n), one);
    assert(one * abs(a * n) == abs(a * n) * one) by (nonlinear_arith);
}

impl PreciseDecimal {
    /// The sum, where it is known to be representable.
    pub(crate) fn sum(self, other: PreciseDecimal) -> (r: PreciseDecimal)
        requires
            fits_i256(self@ + other@),
        ensures
            r@ == self@ + other@,
    {
        self.checked_add(other).unwrap()
    }

    /// The difference, where it is known to be representable.
    pub(crate) fn difference(self, other: PreciseDecimal) -> (r: PreciseDecimal)
        requires
            fits_i256(self@ - other@),
        ensures
            r@ == self@ - other@,
    {
        self.checked_sub(other).unwrap()
    }

    /// The fixed-point product, where it is known to be representable.
    pub(crate) fn product(self, other: PreciseDecimal) -> (r: PreciseDecimal)
        requires
            magnitude_fits_i256(pmul(self@, other@)),
        ensures
            r@ == pmul(self@, other@),
    {
        self.checked_mul(other).unwrap()
    }

    /// The fixed-point quotient, where it is known to be representable.
    pub(crate) fn quotient(self, other: PreciseDecimal) -> (r: PreciseDecimal)
        requires
            other@ != 0,
            magnitude_fits_i256(pdiv(self@, other@)),
        ensures
            r@ == pdiv(self@, other@),
    {
        self.checked_div(other).unwrap()
    }
}

/// A fixed-point product's magnitude, times the scale, is at most the
/// product of the factors' bounds.
pub proof fn lemma_pmul_le(a: int, b: int, ba: int, bb: int)
    requires
        abs(a) <= ba,
        abs(b) <= bb,
    ensures
        abs(pmul(a, b)) * precise_one() <= ba * bb,
{
    let one = precise_one();
    assert(abs(a * b) == abs(a) * abs(b)) by (nonlinear_arith);
    assert(abs(a) * abs(b) <= ba * bb) by (nonlinear_arith)
        requires
            0 <= abs(a) <= ba,
            0 <= abs(b) <= bb,
    ;
    lemma_tdiv_abs(a * b, one);
    vstd::arithmetic::div_mod::lemma_fundamental_div_mod(abs(a * b), one);
    vstd::arithmetic::div_mod::lemma_mod_bound(abs(a * b), one);
    assert(one * (abs(a * b) / one) == (abs(a * b) / one) * one) by (nonlinear_arith);
}

/// A fixed-point quotient's magnitude, times a lower bound of the positive
/// divisor, is at most the dividend's bound times the scale.
pub proof fn lemma_pdiv_le(a: int, d: int, ba: int, bd: int)
    requires
        abs(a) <= ba,
        d >= bd > 0,
    ensures
        abs(pdiv(a, d)) * bd <= ba * precise_one(),
{
    let one = precise_one();
    lemma_tdiv_abs(a * one, d);
    assert(abs(a * one) == abs(a) * one);
    let q = abs(a * one) / d;
    vstd::arithmetic::div_mod::lemma_fundamental_div_mod(abs(a * one), d);
    vstd::arithmetic::div_mod::lemma_mod_bound(abs(a * one), d);
    vstd::arithmetic::div_mod::lemma_div_pos_is_pos(abs(a * one), d);
    assert(q * bd <= q * d) by (nonlinear_arith)
        requires
            q >= 0,
            d >= bd,
    ;
    assert(d * q == q * d) by (nonlinear_arith);
    assert(abs(a) * one <= ba * one) by (nonlinear_arith)
        requires
            abs(a) <= ba,
            one > 0,
    ;
}

/// The powers of two that bound the exponential's range.
pub proof fn lemma_pow2_facts()
    ensures
        pow2(121) == 2658455991569831745807614120560689152int,
        pow2(130) == 1361129467683753853853498429727072845824int,
        pow2(131) == 2722258935367507707706996859454145691648int,
        pow2(134) == 21778071482940061661655974875633165533184int,
        pow2(255) == i256_bound(),
{
    vstd::arithmetic::power2::lemma2_to64();
    vstd::arithmetic::power2::lemma2_to64_rest();
    vstd::arithmetic::power2::lemma_pow2_adds(64, 57);
    vstd::arithmetic::power2::lemma_pow2_adds(64, 2);
    vstd::arithmetic::power2::lemma_pow2_adds(64, 66);
    vstd::arithmetic::power2::lemma_pow2_adds(64, 3);
    vstd::arithmetic::power2::lemma_pow2_adds(64, 67);
    vstd::arithmetic::power2::lemma_pow2_adds(64, 6);
    vstd::arithmetic::power2::lemma_pow2_adds(64, 70);
    vstd::arithmetic::power2::lemma_pow2_adds(134, 121);
    assert(pow2(134) * pow2(121) == 21778071482940061661655974875633165533184int
        * 2658455991569831745807614120560689152int);
}

impl Decimal {
    /// `0`.
    pub fn zero() -> (r: Decimal)
        ensures
            r@ == 0,
    {
        Decimal(I192 { d0: 0, d1: 0, d2: 0 })
    }
}

/// Widening a `Decimal` to the precise tier and narrowing it back gives back the
/// same value, for every `Decimal` but the smallest, `-2^191` subunits,
/// which radix-common refuses to narrow.
pub proof fn lemma_tier_round_trip(d: Decimal)
    requires
        d@ != i192_min(),
    ensures
        narrow(widen(d@)) == Some(d@),
{
    lemma_i192_range(d.0);
    lemma_narrow_widen(d@);
}

/// `lemma_tier_round_trip` over the values themselves.
pub proof fn lemma_narrow_widen(d: int)
    requires
        magnitude_fits_i192(d),
    ensures
        narrow(widen(d)) == Some(d),
{
    let r = tier_ratio();
    vstd::arithmetic::div_mod::lemma_div_multiples_vanish(abs(d), r);
    assert(abs(d * r) == r * abs(d)) by (nonlinear_arith)
        requires
            r > 0,
    ;
}

impl Decimal {
    /// The same number in the precise tier; always exact.
    pub fn to_precise(self) -> (r: PreciseDecimal)
        ensures
            r@ == widen(self@),
    {
        PreciseDecimal::from_decimal(self)
    }
}

impl PreciseDecimal {
    /// The number truncated toward zero to 18 fractional digits; absent
    /// exactly when that leaves the `Decimal` range.
    pub fn to_decimal(self) -> (r: Option<Decimal>)
        ensures
            decimal_opt(r) == narrow(self@),
            r is Some <==> magnitude_fits_i192(tdiv(self@, tier_ratio())),
    {
        Decimal::try_from_precise(self)
    }
}

} // verus!
