use radix_common::math::{Decimal as RadixDecimal, PreciseDecimal as RadixPrecise};
use scrypto_math::{Decimal, PreciseDecimal, I192, I256};
use std::str::FromStr;

fn rdec(s: &str) -> RadixDecimal {
    RadixDecimal::from_str(s).unwrap()
}

fn rpdec(s: &str) -> RadixPrecise {
    RadixPrecise::from_str(s).unwrap()
}

fn from_rdec(d: RadixDecimal) -> Decimal {
    let g = d.attos().to_digits();
    Decimal(I192 { d0: g[0], d1: g[1], d2: g[2] })
}

fn from_rpdec(d: RadixPrecise) -> PreciseDecimal {
    let g = d.precise_subunits().to_digits();
    PreciseDecimal(I256 { d0: g[0], d1: g[1], d2: g[2], d3: g[3] })
}

fn to_rpdec(p: PreciseDecimal) -> RadixPrecise {
    RadixPrecise::from_precise_subunits(radix_common::math::I256::from_digits([p.0.d0, p.0.d1, p.0.d2, p.0.d3]))
}

fn dec(s: &str) -> Decimal {
    from_rdec(rdec(s))
}

fn pdec(s: &str) -> PreciseDecimal {
    from_rpdec(rpdec(s))
}
use scrypto_math::exponential::{half_negative, half_positive, invln2, p};
use scrypto_math::logarithm::ln2;
use scrypto_math::{ExponentialDecimal, ExponentialPreciseDecimal};

fn dec_minus(a: &str, b: &str) -> Decimal {
    from_rdec(rdec(a) - rdec(b))
}

fn pdec_minus(a: &str, b: &str) -> PreciseDecimal {
    from_rpdec(rpdec(a) - rpdec(b))
}

fn pdec_plus(a: &str, b: &str) -> PreciseDecimal {
    from_rpdec(rpdec(a) + rpdec(b))
}

#[test]
fn exponential_test_constants() {
    assert_eq!(ln2(), pdec("0.693147180559945309417232121458176568"));
    assert_eq!(half_positive(), pdec("0.5"));
    assert_eq!(half_negative(), pdec("-0.5"));
    assert_eq!(invln2(), pdec("1.442695040888963407359924681001892137"));
    assert_eq!(p(1), pdec("0.166666666666666019037"));
    assert_eq!(p(2), pdec("-0.00277777777770155933842"));
    assert_eq!(p(3), pdec("0.0000661375632143793436117"));
    assert_eq!(p(4), pdec("-0.00000165339022054652515390"));
    assert_eq!(p(5), pdec("0.0000000413813679705723846039"));
}

#[test]
fn test_exponent_positive() {
    assert_eq!(dec("0.1").exp(), Some(dec("1.105170918075647624")));
    assert_eq!(
        pdec("0.1").exp(),
        Some(pdec_plus(
            "1.105170918075647624811707826490246668",
            "0.000000000000000000073249221022502114"
        ))
    );
    assert_eq!(dec("1").exp(), Some(dec_minus("2.718281828459045235", "0.000000000000000001")));
    assert_eq!(
        pdec("1").exp(),
        Some(pdec_minus(
            "2.718281828459045235360287471352662497",
            "0.000000000000000000506600695098127761"
        ))
    );
    assert_eq!(dec("2").exp(), Some(dec_minus("7.389056098930650227", "0.000000000000000001")));
    assert_eq!(
        pdec("2").exp(),
        Some(pdec_minus(
            "7.389056098930650227230427460575007813",
            "0.000000000000000000502826567049772189"
        ))
    );
    assert_eq!(dec("5").exp(), Some(dec_minus("148.413159102576603421", "0.000000000000000013")));
    assert_eq!(
        pdec("5").exp(),
        Some(pdec_minus(
            "148.413159102576603421115580040552279623",
            "0.000000000000000012819743652169222343"
        ))
    );
    assert_eq!(dec("10").exp(), Some(dec_minus("22026.465794806716516957", "0.000000000000004654")));
    assert_eq!(
        pdec("10").exp(),
        Some(pdec_minus(
            "22026.465794806716516957900645284244366353",
            "0.000000000000004654463413405594362897"
        ))
    );
}

#[test]
fn test_exponent_negative() {
    assert_eq!(dec("-0.1").exp(), Some(dec("0.904837418035959573")));
    assert_eq!(
        pdec("-0.1").exp(),
        Some(pdec_minus(
            "0.904837418035959573164249059446436621",
            "0.000000000000000000059971389890128697"
        ))
    );
    assert_eq!(dec("-1").exp(), Some(dec("0.367879441171442321")));
    assert_eq!(
        pdec("-1").exp(),
        Some(pdec_plus(
            "0.367879441171442321595523770161460867",
            "0.000000000000000000068560948558969987"
        ))
    );
    assert_eq!(dec("-2").exp(), Some(dec("0.135335283236612691")));
    assert_eq!(
        pdec("-2").exp(),
        Some(pdec_plus(
            "0.135335283236612691893999494972484403",
            "0.000000000000000000009209589825745512"
        ))
    );
    assert_eq!(dec("-5").exp(), Some(dec("0.006737946999085467")));
    assert_eq!(
        pdec("-5").exp(),
        Some(pdec_plus(
            "0.006737946999085467096636048423148424",
            "0.000000000000000000000582015461381543"
        ))
    );
    assert_eq!(dec("-10").exp(), Some(dec("0.000045399929762484")));
    assert_eq!(
        pdec("-10").exp(),
        Some(pdec_plus(
            "0.000045399929762484851535591515560550",
            "0.000000000000000000000009593564125049"
        ))
    );
}

#[test]
fn test_exponent_zero() {
    assert_eq!(dec("0").exp(), Some(dec("1")));
    assert_eq!(pdec("0").exp(), Some(pdec("1")));
}

#[test]
fn test_exponent_large_value() {
    assert_eq!(
        dec("80").exp(),
        Some(dec_minus(
            "55406223843935100525711733958316612.924856728832685322",
            "8411471907589238.909955041056771071"
        ))
    );
    assert_eq!(
        pdec("80").exp(),
        Some(pdec_minus(
            "55406223843935100525711733958316612.924856728832685322870300188282045700",
            "8411471907589238.909955041056771071656863326999790852"
        ))
    );
}

#[test]
fn test_exponent_small_value() {
    assert_eq!(dec("-30").exp(), Some(dec("0.000000000000093576")));
    assert_eq!(
        pdec("-60").exp(),
        Some(pdec_minus(
            "0.000000000000000000000000008756510762",
            "0.000000000000000000000000000000000001"
        ))
    );
}

#[test]
fn test_exponent_smallest_value() {
    assert_eq!(dec("-41").exp(), Some(dec("0.000000000000000001")));
    assert_eq!(pdec("-82").exp(), Some(pdec("0.000000000000000000000000000000000002")));
}

#[test]
fn test_exponent_largest_value() {
    assert_eq!(
        dec("90").exp(),
        Some(dec_minus(
            "1220403294317840802002710035136369753970.746421099767546244",
            "62783923595896661921.607585533121275855"
        ))
    );
    assert_eq!(
        pdec("93").exp(),
        Some(pdec_plus(
            "24512455429200857855527729431109153423487.564149646906095458338836041506325882",
            "673513250279373616826.005878421400866518707554460260006534"
        ))
    );
}

#[test]
fn test_exponent_value_too_small() {
    assert_eq!(dec("-42").exp(), Some(dec("0")));
    assert_eq!(pdec("-83").exp(), Some(pdec("0")));
}

#[test]
fn test_exponent_value_too_large() {
    assert_eq!(dec("91").exp(), None);
    assert_eq!(pdec("94").exp(), None);
}

#[test]
fn test_exponent_negative_min() {
    assert_eq!(from_rdec(RadixDecimal::MIN).exp(), Some(dec("0")));
    assert_eq!(from_rpdec(RadixPrecise::MIN).exp(), Some(pdec("0")));
}

#[test]
fn test_exponent_positive_max() {
    assert_eq!(from_rdec(RadixDecimal::MAX).exp(), None);
    assert_eq!(from_rpdec(RadixPrecise::MAX).exp(), None);
}
