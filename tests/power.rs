use radix_common::math::{Decimal as RadixDecimal, PreciseDecimal as RadixPrecise};
use scrypto_math::{Decimal, PreciseDecimal, I192, I256};
use std::str::FromStr;

fn rdec(s: &str) -> RadixDecimal {
    RadixDecimal::from_str(s).unwrap()
}

fn rpdec(s: &str) -> RadixPrecise {
    RadixPrecise::from_str(s).unwrap()
}

fn from_rdec(d: RadixDecimal) -> Decimal {
    let g = d.attos().to_digits();
    Decimal(I192 { d0: g[0], d1: g[1], d2: g[2] })
}

fn from_rpdec(d: RadixPrecise) -> PreciseDecimal {
    let g = d.precise_subunits().to_digits();
    PreciseDecimal(I256 { d0: g[0], d1: g[1], d2: g[2], d3: g[3] })
}

fn to_rpdec(p: PreciseDecimal) -> RadixPrecise {
    RadixPrecise::from_precise_subunits(radix_common::math::I256::from_digits([p.0.d0, p.0.d1, p.0.d2, p.0.d3]))
}

fn dec(s: &str) -> Decimal {
    from_rdec(rdec(s))
}

fn pdec(s: &str) -> PreciseDecimal {
    from_rpdec(rpdec(s))
}
use scrypto_math::PowerDecimal;

fn dec_minus(a: &str, b: &str) -> Decimal {
    from_rdec(rdec(a) - rdec(b))
}

fn dec_plus(a: &str, b: &str) -> Decimal {
    from_rdec(rdec(a) + rdec(b))
}

#[test]
fn test_pow_exp_zero() {
    assert_eq!(dec("-2").pow(dec("0")), Some(dec("1")));
    assert_eq!(dec("-1").pow(dec("0")), Some(dec("1")));
    assert_eq!(dec("0").pow(dec("0")), Some(dec("1")));
    assert_eq!(dec("1").pow(dec("0")), Some(dec("1")));
    assert_eq!(dec("2").pow(dec("0")), Some(dec("1")));
}

#[test]
fn test_pow_base_one() {
    assert_eq!(dec("1").pow(dec("2")), Some(dec("1")));
    assert_eq!(dec("1").pow(dec("-2")), Some(dec("1")));
}

#[test]
fn test_pow_base_zero() {
    assert_eq!(dec("0").pow(dec("-2")), None);
    assert_eq!(dec("0").pow(dec("-1")), None);
    assert_eq!(dec("0").pow(dec("0")), Some(dec("1")));
    assert_eq!(dec("0").pow(dec("1")), Some(dec("0")));
    assert_eq!(dec("0").pow(dec("2")), Some(dec("0")));
}

#[test]
fn test_pow_exp_one() {
    assert_eq!(dec("2").pow(dec("1")), Some(dec("2")));
    assert_eq!(dec("-2").pow(dec("1")), Some(dec("-2")));
}

#[test]
fn test_pow_exp_minus_one() {
    assert_eq!(dec("2").pow(dec("-1")), Some(dec("0.5")));
    assert_eq!(dec("-2").pow(dec("-1")), Some(dec("-0.5")));
}

#[test]
fn test_pow_base_negative_exp_integer() {
    assert_eq!(dec("2").pow(dec("-2")), Some(dec("0.25")));
    assert_eq!(dec("-2").pow(dec("2")), Some(dec("4")));
    assert_eq!(dec("-2").pow(dec("-2")), Some(dec("0.25")));
    assert_eq!(dec("5").pow(dec("-5")), Some(dec("0.00032")));
    assert_eq!(dec("-5").pow(dec("5")), Some(dec_plus("-3125", "0.000000000000001660")));
    assert_eq!(dec("-5").pow(dec("-5")), Some(dec("-0.00032")));
}

#[test]
fn test_pow_base_negative_exp_non_integer() {
    assert_eq!(dec("-1.1").pow(dec("0.00000000000000001")), None);
    assert_eq!(dec("-3.4").pow(dec("15.43")), None);
    assert_eq!(dec("-3.4").pow(dec("-15.43")), None);
}

#[test]
fn test_pow_base_maximum_exp_non_integer() {
    assert_eq!(dec("-1.1").pow(dec("0.00000000000000001")), None);
    assert_eq!(dec("-3.4").pow(dec("15.43")), None);
    assert_eq!(dec("-3.4").pow(dec("-15.43")), None);
}

#[test]
fn test_pow_smallest_value() {
    assert_eq!(dec("3.4").pow(dec("-33.43")), Some(dec("0.000000000000000001")));
}

#[test]
fn test_pow_largest_value() {
    assert_eq!(
        dec("3.4").pow(dec("71.43")),
        Some(dec_minus(
            "91947313437872693600354888137039353441.244419982586019069",
            "187832408272640032348.012171022248677284"
        ))
    );
}

#[test]
fn test_pow_base_minimum() {
    let min = from_rdec(RadixDecimal::MIN);
    let max = from_rdec(RadixDecimal::MAX);
    assert_eq!(min.pow(dec("3")), None);
    assert_eq!(min.pow(min), None);
    assert_eq!(min.pow(max), None);
}

#[test]
fn test_pow_base_maximum() {
    let min = from_rdec(RadixDecimal::MIN);
    let max = from_rdec(RadixDecimal::MAX);
    assert_eq!(max.pow(dec("3")), None);
    assert_eq!(max.pow(min), None);
    assert_eq!(max.pow(max), None);
}

#[test]
fn test_pow_base_positive_normal() {
    assert_eq!(dec("2").pow(dec("2")), Some(dec("4")));
    assert_eq!(
        dec("3.4").pow(dec("15.43")),
        Some(dec_minus("158752177.142935864260984228", "0.000000000094162353"))
    );
    assert_eq!(dec("3.4").pow(dec("-15.43")), Some(dec("0.000000006299126210")));
}
