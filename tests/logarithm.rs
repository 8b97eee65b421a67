use radix_common::math::{Decimal as RadixDecimal, PreciseDecimal as RadixPrecise};
use scrypto_math::{Decimal, PreciseDecimal, I192, I256};
use std::str::FromStr;

fn rdec(s: &str) -> RadixDecimal {
    RadixDecimal::from_str(s).unwrap()
}

fn rpdec(s: &str) -> RadixPrecise {
    RadixPrecise::from_str(s).unwrap()
}

fn from_rdec(d: RadixDecimal) -> Decimal {
    let g = d.attos().to_digits();
    Decimal(I192 { d0: g[0], d1: g[1], d2: g[2] })
}

fn from_rpdec(d: RadixPrecise) -> PreciseDecimal {
    let g = d.precise_subunits().to_digits();
    PreciseDecimal(I256 { d0: g[0], d1: g[1], d2: g[2], d3: g[3] })
}

fn to_rpdec(p: PreciseDecimal) -> RadixPrecise {
    RadixPrecise::from_precise_subunits(radix_common::math::I256::from_digits([p.0.d0, p.0.d1, p.0.d2, p.0.d3]))
}

fn dec(s: &str) -> Decimal {
    from_rdec(rdec(s))
}

fn pdec(s: &str) -> PreciseDecimal {
    from_rpdec(rpdec(s))
}

use scrypto_math::logarithm::{lg, ln10, ln2, sqrt, sqrt_half};
use scrypto_math::{LogarithmDecimal, LogarithmPreciseDecimal};

fn dec_minus(a: &str, b: &str) -> Decimal {
    from_rdec(rdec(a) - rdec(b))
}

fn dec_plus(a: &str, b: &str) -> Decimal {
    from_rdec(rdec(a) + rdec(b))
}

fn pdec_minus(a: &str, b: &str) -> PreciseDecimal {
    from_rpdec(rpdec(a) - rpdec(b))
}

fn pdec_plus(a: &str, b: &str) -> PreciseDecimal {
    from_rpdec(rpdec(a) + rpdec(b))
}

#[test]
fn logarithm_test_constants() {
    assert_eq!(ln2(), pdec("0.693147180559945309417232121458176568"));
    assert_eq!(ln10(), pdec("2.302585092994045684017991454684364207"));
    assert_eq!(sqrt(), pdec("1.414213562373095048801688724209698078"));
    assert_eq!(sqrt_half(), pdec("0.707106781186547524400844362104849039"));
    assert_eq!(lg(1), pdec("0.6666666666666735130"));
    assert_eq!(lg(2), pdec("0.3999999999940941908"));
    assert_eq!(lg(3), pdec("0.2857142874366239149"));
    assert_eq!(lg(4), pdec("0.2222219843214978396"));
    assert_eq!(lg(5), pdec("0.1818357216161805012"));
    assert_eq!(lg(6), pdec("0.1531383769920937332"));
    assert_eq!(lg(7), pdec("0.1479819860511658591"));
}

#[test]
fn test_ln_positive_number() {
    assert_eq!(dec("10").ln(), Some(dec_minus("2.302585092994045684", "0.000000000000000001")));
    assert_eq!(
        pdec("10").ln(),
        Some(pdec_minus(
            "2.302585092994045684017991454684364207",
            "0.000000000000000000093151926716540583"
        ))
    );
}

#[test]
fn test_ln_e() {
    assert_eq!(dec("2.718281828459045235").ln(), Some(dec_minus("1", "0.000000000000000001")));
    assert_eq!(
        pdec("2.718281828459045235360287471352662497").ln(),
        Some(pdec_minus("1", "0.000000000000000000072256402139088204"))
    );
}

#[test]
fn test_ln_one() {
    assert_eq!(dec("1").ln(), Some(dec("0")));
    assert_eq!(pdec("1").ln(), Some(pdec("0")));
}

#[test]
fn test_ln_zero() {
    assert_eq!(dec("0").ln(), None);
    assert_eq!(pdec("0").ln(), None);
}

#[test]
fn test_ln_negative_number() {
    assert_eq!(dec("-1").ln(), None);
    assert_eq!(pdec("-1").ln(), None);
}

#[test]
fn test_ln_lesser_sqrt_half() {
    let below = from_rpdec(to_rpdec(sqrt_half()) - rpdec("0.000000000000000000000000000000000001"));
    assert_eq!(
        below.ln(),
        Some(pdec_minus(
            "-0.346573590279972654708616060729088286",
            "0.000000000000000000349708283169683682"
        ))
    );
    assert_eq!(
        dec("0.664613997892457936").ln(),
        Some(dec_plus("-0.408548861152152805", "0.000000000000000001"))
    );
    assert_eq!(dec("0.5").ln(), Some(dec("-0.693147180559945309")));
    assert_eq!(dec("0.25").ln(), Some(dec("-1.386294361119890618")));
    assert_eq!(dec("0.125").ln(), Some(dec("-2.079441541679835928")));
}

#[test]
fn test_ln_equal_sqrt_half() {
    assert_eq!(
        sqrt_half().ln(),
        Some(pdec_plus(
            "-0.346573590279972654708616060729088284",
            "0.000000000000000000349708283169683683"
        ))
    );
}

#[test]
fn test_ln_between_sqrt_half_and_sqrt() {
    let above = from_rpdec(to_rpdec(sqrt_half()) + rpdec("0.000000000000000000000000000000000001"));
    assert_eq!(
        above.ln(),
        Some(pdec_plus(
            "-0.346573590279972654708616060729088284",
            "0.000000000000000000349708283169683685"
        ))
    );
    assert_eq!(dec("0.8").ln(), Some(dec("-0.223143551314209755")));
    assert_eq!(
        dec("1.329227995784915872").ln(),
        Some(dec_plus("0.284598319407792504", "0.000000000000000001"))
    );
    assert_eq!(dec("1.329227995784915873").ln(), Some(dec("0.284598319407792505")));
    assert_eq!(dec("1.2").ln(), Some(dec("0.182321556793954626")));
    let below = from_rpdec(to_rpdec(sqrt()) - rpdec("0.000000000000000000000000000000000001"));
    assert_eq!(
        below.ln(),
        Some(pdec_minus(
            "0.346573590279972654708616060729088282",
            "0.000000000000000000349708283169683681"
        ))
    );
}

#[test]
fn test_ln_equal_sqrt() {
    assert_eq!(
        sqrt().ln(),
        Some(pdec_minus(
            "0.346573590279972654708616060729088284",
            "0.000000000000000000349708283169683683"
        ))
    );
}

#[test]
fn test_ln_greater_sqrt() {
    let above = from_rpdec(to_rpdec(sqrt()) + rpdec("0.000000000000000000000000000000000001"));
    assert_eq!(
        above.ln(),
        Some(pdec_plus(
            "0.346573590279972654708616060729088284",
            "0.000000000000000000349708283169683683"
        ))
    );
    assert_eq!(dec("2.658455991569831745").ln(), Some(dec("0.977745499967737814")));
    assert_eq!(dec("2").ln(), Some(dec("0.693147180559945309")));
    assert_eq!(dec("4").ln(), Some(dec("1.386294361119890618")));
    assert_eq!(dec("8").ln(), Some(dec("2.079441541679835928")));
}

#[test]
fn test_ln_decimal_precision() {
    assert_eq!(dec("1000000000000000000000000000000").ln(), Some(dec("69.077552789821370520")));
    assert_eq!(
        pdec("1000000000000000000000000000000").ln(),
        Some(pdec_plus(
            "69.077552789821370520539743640530926228",
            "0.000000000000000000274111421367606147"
        ))
    );
}

#[test]
fn test_ln_smallest_positive() {
    assert_eq!(dec("0.000000000000000001").ln(), Some(dec("-41.446531673892822312")));
    assert_eq!(
        pdec("0.000000000000000000000000000000000001").ln(),
        Some(pdec_plus(
            "-82.893063347785644624647692368637111474",
            "0.000000000000000000345534790097727621"
        ))
    );
}

#[test]
fn test_ln_maximum_possible() {
    assert_eq!(from_rdec(RadixDecimal::MAX).ln(), Some(dec("90.944579813056731786")));
    assert_eq!(
        from_rpdec(RadixPrecise::MAX).ln(),
        Some(pdec_plus(
            "93.859467695000409276746498603197913385",
            "0.000000000000000000345534790097727602"
        ))
    );
}

#[test]
fn test_log_2() {
    assert_eq!(dec("-1").log2(), None);
    assert_eq!(dec("0").log2(), None);
    assert_eq!(dec("1").log2(), Some(dec("0")));
    assert_eq!(dec("1.5").log2(), Some(dec_minus("0.584962500721156181", "0.000000000000000001")));
    assert_eq!(dec("2").log2(), Some(dec("1")));
    assert_eq!(dec("10").log2(), Some(dec("3.321928094887362347")));
}

#[test]
fn test_log_10() {
    assert_eq!(dec("-1").log10(), None);
    assert_eq!(dec("0").log10(), None);
    assert_eq!(dec("1").log10(), Some(dec("0")));
    assert_eq!(dec("5").log10(), Some(dec("0.698970004336018804")));
    assert_eq!(dec("10").log10(), Some(dec("1")));
    assert_eq!(dec("20").log10(), Some(dec("1.301029995663981195")));
}

#[test]
fn test_log_base() {
    assert_eq!(dec("-1").log_base(dec("8")), None);
    assert_eq!(dec("0").log_base(dec("8")), None);
    assert_eq!(dec("1").log_base(dec("8")), Some(dec("0")));
    assert_eq!(dec("5").log_base(dec("8")), Some(dec("0.773976031629120782")));
    assert_eq!(dec("8").log_base(dec("8")), Some(dec("1")));
    assert_eq!(dec("10").log_base(dec("8")), Some(dec("1.107309364962454115")));
    assert_eq!(dec("20").log_base(dec("8")), Some(dec("1.440642698295787449")));
    assert_eq!(from_rdec(RadixDecimal::MAX).log_base(dec("8")), Some(dec("43.735098097342492579")));
}
