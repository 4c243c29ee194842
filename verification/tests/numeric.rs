use core::cmp::Ordering;
use nestcss::number::Number;
use num_bigint::BigInt;
use num_rational::BigRational;

fn ratio(n: i64, d: i64) -> Number {
    Number::new(BigRational::new(BigInt::from(n), BigInt::from(d)))
}

fn integer(n: i64) -> Number {
    Number::from_integer(BigInt::from(n))
}

#[test]
fn integral_round_trip() {
    assert_eq!(integer(0).to_css_string(), "0");
    assert_eq!(integer(42).to_css_string(), "42");
    assert_eq!(integer(-7).to_css_string(), "-7");
    assert_eq!(ratio(10, 2).to_css_string(), "5");
    assert_eq!(ratio(-10, 2).to_css_string(), "-5");
}

#[test]
fn terminating_decimals() {
    assert_eq!(ratio(1, 4).to_css_string(), "0.25");
    assert_eq!(ratio(1, 2).to_css_string(), "0.5");
    assert_eq!(ratio(-1, 4).to_css_string(), "-0.25");
    assert_eq!(ratio(5, 4).to_css_string(), "1.25");
}

#[test]
fn non_terminating_decimals() {
    // ten exact digits, then one more digit rounded to nearest
    assert_eq!(ratio(1, 3).to_css_string(), "0.33333333333");
    assert_eq!(ratio(2, 3).to_css_string(), "0.66666666667");
    assert_eq!(ratio(-1, 3).to_css_string(), "-0.33333333333");
    assert_eq!(ratio(1, 7).to_css_string(), "0.14285714286");
}

#[test]
fn negative_fraction_keeps_sign() {
    // a value in (-1, 0) renders its sign before the zero integer part
    assert_eq!(ratio(-1, 2).to_css_string(), "-0.5");
}

#[test]
fn to_integer_truncates_toward_zero() {
    assert_eq!(ratio(7, 2).to_integer(), BigInt::from(3));
    assert_eq!(ratio(-7, 2).to_integer(), BigInt::from(-3));
    assert_eq!(integer(9).to_integer(), BigInt::from(9));
}

#[test]
fn exact_add_sub_round_trip() {
    let a = ratio(1, 3);
    let b = ratio(1, 7);
    let s = a.duplicate().add(b.duplicate());
    let r = s.sub(b);
    assert!(r.equals(&a));
    let x = ratio(123456789, 1000003);
    let y = ratio(-987654321, 999983);
    let back = x.duplicate().add(y.duplicate()).sub(y);
    assert!(back.equals(&x));
}

#[test]
fn exact_mul_div_neg() {
    let half = ratio(1, 2);
    let third = ratio(1, 3);
    let sixth = half.duplicate().mul(third.duplicate());
    assert!(sixth.equals(&ratio(1, 6)));
    let q = ratio(1, 6).div(third);
    assert!(q.equals(&half));
    assert!(ratio(1, 2).neg().equals(&ratio(-1, 2)));
}

#[test]
fn ordering_consistent_with_value() {
    assert_eq!(ratio(1, 3).compare(&ratio(1, 2)), Ordering::Less);
    assert_eq!(ratio(1, 2).compare(&ratio(1, 3)), Ordering::Greater);
    assert_eq!(ratio(1, 2).compare(&ratio(2, 4)), Ordering::Equal);
    assert!(ratio(1, 2).equals(&ratio(2, 4)));
    assert_eq!(ratio(-1, 2).compare(&ratio(1, 3)), Ordering::Less);
}

#[test]
fn equal_values_render_identically() {
    assert_eq!(ratio(2, 4).to_css_string(), ratio(1, 2).to_css_string());
    assert_eq!(ratio(3, 9).to_css_string(), ratio(1, 3).to_css_string());
}

#[test]
fn eleventh_digit_can_round_up_to_ten() {
    // after ten zero digits the remainder 59/60 rounds to the two-digit 10
    let v = Number::new(BigRational::new(
        BigInt::from(59),
        BigInt::from(600000000000i64),
    ));
    assert_eq!(v.to_css_string(), "0.000000000010");
}
