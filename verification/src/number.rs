//! Exact rational numeric values.
//!
//! A `Number` is an arbitrary-precision rational, stored as a
//! `num_rational::BigRational`. The stored value is modelled by two
//! uninterpreted integers, its numerator and its denominator; every operation
//! states its result as an exact relation between these integers, so equality
//! and ordering are mathematical comparisons of the rational values, never
//! textual or floating-point approximations.
use vstd::arithmetic::div_mod::{lemma_div_pos_is_pos, lemma_fundamental_div_mod};
use vstd::prelude::*;

use num_bigint::BigInt;
use num_rational::BigRational;

verus! {

#[verifier::external_type_specification]
#[verifier::external_body]
pub struct ExBigInt(BigInt);

#[verifier::external_type_specification]
#[verifier::external_body]
#[verifier::reject_recursive_types(T)]
pub struct ExRatio<T>(num_rational::Ratio<T>);

/// The integer value held by a `BigInt`.
pub uninterp spec fn int_of(b: BigInt) -> int;

/// The numerator stored in a `BigRational`.
pub uninterp spec fn numer_of(r: BigRational) -> int;

/// The denominator stored in a `BigRational`. `num_rational` keeps it
/// positive for every value it constructs.
pub uninterp spec fn denom_of(r: BigRational) -> int;

/// Integer division truncated toward zero, for a positive divisor.
pub open spec fn tdiv(n: int, d: int) -> int {
    if n >= 0 {
        n / d
    } else {
        -((-n) / d)
    }
}

/// Remainder of division truncated toward zero: its sign follows `n`.
pub open spec fn tmod(n: int, d: int) -> int {
    n - d * tdiv(n, d)
}

/// The nearest integer to `n / d`, ties rounded away from zero
/// (positive divisor).
pub open spec fn round_away(n: int, d: int) -> int {
    if n >= 0 {
        (2 * n + d) / (2 * d)
    } else {
        -((-2 * n + d) / (2 * d))
    }
}

/// Two numerator/denominator pairs denote the same rational value.
pub open spec fn same_value(n1: int, d1: int, n2: int, d2: int) -> bool {
    n1 * d2 == n2 * d1
}

/// The rational `n1 / d1` is strictly below `n2 / d2`
/// (both denominators positive).
pub open spec fn value_lt(n1: int, d1: int, n2: int, d2: int) -> bool {
    n1 * d2 < n2 * d1
}

/// Relies on `num_bigint`'s `From<i64>`: an exact conversion.
#[verifier::external_body]
fn bigint_from_i64(i: i64) -> (b: BigInt)
    ensures
        int_of(b) == i as int,
{
    BigInt::from(i)
}

/// Relies on `num_rational`'s `Ratio::from_integer`: the value `t / 1`,
/// stored exactly as numerator `t` over denominator one.
#[verifier::external_body]
fn rat_from_integer(t: BigInt) -> (r: BigRational)
    ensures
        numer_of(r) == int_of(t),
        denom_of(r) == 1,
{
    BigRational::from_integer(t)
}

/// Relies on `num_rational`'s `Ratio::to_integer`: the numerator divided by
/// the denominator with `BigInt` division, which truncates toward zero.
#[verifier::external_body]
fn rat_to_integer(r: &BigRational) -> (b: BigInt)
    requires
        denom_of(*r) > 0,
    ensures
        int_of(b) == tdiv(numer_of(*r), denom_of(*r)),
{
    r.to_integer()
}

/// Relies on `num_rational`'s `Ratio::fract`: numerator remainder over the
/// unchanged denominator (`new_raw(numer % denom, denom)`), the remainder
/// taking the numerator's sign.
#[verifier::external_body]
fn rat_fract(r: &BigRational) -> (f: BigRational)
    requires
        denom_of(*r) > 0,
    ensures
        numer_of(f) == tmod(numer_of(*r), denom_of(*r)),
        denom_of(f) == denom_of(*r),
{
    r.fract()
}

/// Relies on `num_rational`'s `Neg` on a rational reference:
/// `new_raw(-numer, denom)`, exactly.
#[verifier::external_body]
fn rat_neg(r: &BigRational) -> (m: BigRational)
    ensures
        numer_of(m) == -numer_of(*r),
        denom_of(m) == denom_of(*r),
{
    -r
}

/// Relies on `num_rational`'s `Clone`: the same numerator and denominator.
#[verifier::external_body]
fn rat_clone(r: &BigRational) -> (c: BigRational)
    ensures
        numer_of(c) == numer_of(*r),
        denom_of(c) == denom_of(*r),
{
    r.clone()
}

/// Relies on `num_rational`'s `Add`: exact rational addition; the result is
/// reduced, so only the value is promised, with a positive denominator.
#[verifier::external_body]
fn rat_add(a: BigRational, b: BigRational) -> (r: BigRational)
    requires
        denom_of(a) > 0,
        denom_of(b) > 0,
    ensures
        denom_of(r) > 0,
        numer_of(r) * (denom_of(a) * denom_of(b)) == (numer_of(a) * denom_of(b) + numer_of(b)
            * denom_of(a)) * denom_of(r),
{
    a + b
}

/// Relies on `num_rational`'s `Sub`: exact rational subtraction.
#[verifier::external_body]
fn rat_sub(a: BigRational, b: BigRational) -> (r: BigRational)
    requires
        denom_of(a) > 0,
        denom_of(b) > 0,
    ensures
        denom_of(r) > 0,
        numer_of(r) * (denom_of(a) * denom_of(b)) == (numer_of(a) * denom_of(b) - numer_of(b)
            * denom_of(a)) * denom_of(r),
{
    a - b
}

/// Relies on `num_rational`'s `Mul`: exact rational multiplication.
#[verifier::external_body]
fn rat_mul(a: BigRational, b: BigRational) -> (r: BigRational)
    requires
        denom_of(a) > 0,
        denom_of(b) > 0,
    ensures
        denom_of(r) > 0,
        numer_of(r) * (denom_of(a) * denom_of(b)) == (numer_of(a) * numer_of(b)) * denom_of(r),
{
    a * b
}

/// Relies on `num_rational`'s `Div`: exact rational division. Division by
/// zero panics in the outside crate, so a zero divisor is excluded here.
#[verifier::external_body]
fn rat_div(a: BigRational, b: BigRational) -> (r: BigRational)
    requires
        denom_of(a) > 0,
        denom_of(b) > 0,
        numer_of(b) != 0,
    ensures
        denom_of(r) > 0,
        numer_of(r) * (denom_of(a) * numer_of(b)) == (numer_of(a) * denom_of(b)) * denom_of(r),
{
    a / b
}

/// Relies on `num_rational`'s `Ord::cmp`: the mathematical order of the two
/// rational values, for positive denominators.
#[verifier::external_body]
fn rat_cmp(a: &BigRational, b: &BigRational) -> (o: core::cmp::Ordering)
    requires
        denom_of(*a) > 0,
        denom_of(*b) > 0,
    ensures
        (o == core::cmp::Ordering::Less) == value_lt(
            numer_of(*a),
            denom_of(*a),
            numer_of(*b),
            denom_of(*b),
        ),
        (o == core::cmp::Ordering::Equal) == same_value(
            numer_of(*a),
            denom_of(*a),
            numer_of(*b),
            denom_of(*b),
        ),
        (o == core::cmp::Ordering::Greater) == value_lt(
            numer_of(*b),
            denom_of(*b),
            numer_of(*a),
            denom_of(*a),
        ),
{
    a.cmp(b)
}

/// Relies on `num_rational`'s `Ratio::round`: the nearest integer, half-way
/// cases rounded away from zero, stored over denominator one.
#[verifier::external_body]
fn rat_round(r: &BigRational) -> (q: BigRational)
    requires
        denom_of(*r) > 0,
    ensures
        numer_of(q) == round_away(numer_of(*r), denom_of(*r)),
        denom_of(q) == 1,
{
    r.round()
}

/// Relies on `num_bigint`'s `Display`: decimal digits without leading
/// zeros, preceded by a minus sign for negative values.
#[verifier::external_body]
fn bigint_text(b: &BigInt) -> (s: String)
    ensures
        s@ == int_text(int_of(*b)),
{
    b.to_string()
}

/// The decimal digit character for `n` in `0 ..= 9`.
pub open spec fn digit_char(n: int) -> char {
    if n == 0 {
        '0'
    } else if n == 1 {
        '1'
    } else if n == 2 {
        '2'
    } else if n == 3 {
        '3'
    } else if n == 4 {
        '4'
    } else if n == 5 {
        '5'
    } else if n == 6 {
        '6'
    } else if n == 7 {
        '7'
    } else if n == 8 {
        '8'
    } else {
        '9'
    }
}

/// The decimal text of a nonnegative integer: no leading zeros, `0` for zero.
pub open spec fn nat_text(n: int) -> Seq<char>
    recommends
        0 <= n,
    decreases n,
{
    if n < 10 {
        seq![digit_char(n)]
    } else {
        nat_text(n / 10).push(digit_char(n % 10))
    }
}

/// The decimal text of an integer: a minus sign for negatives.
pub open spec fn int_text(i: int) -> Seq<char> {
    if i < 0 {
        seq!['-'] + nat_text(-i)
    } else {
        nat_text(i)
    }
}

/// The fractional digits of `n / d`, with `0 <= n < d`: at most `k` exact
/// digits, stopping as soon as the remainder is exactly zero; if after `k`
/// digits the remainder is still non-zero, one further digit is appended,
/// the remainder times ten rounded to the nearest integer.
pub open spec fn frac_text(n: int, d: int, k: nat) -> Seq<char>
    recommends
        d > 0,
        0 <= n < d,
    decreases k,
{
    if n == 0 {
        Seq::empty()
    } else if k == 0 {
        nat_text(round_away(10 * n, d))
    } else {
        nat_text(tdiv(10 * n, d)) + frac_text(tmod(10 * n, d), d, (k - 1) as nat)
    }
}

/// The canonical decimal text of the nonnegative rational `n / d`: the
/// truncated integer part, then, only if the remainder is non-zero, a
/// decimal point and up to ten fractional digits plus one rounded digit.
pub open spec fn rat_text_nonneg(n: int, d: int) -> Seq<char>
    recommends
        d > 0,
        0 <= n,
{
    if tmod(n, d) == 0 {
        nat_text(tdiv(n, d))
    } else {
        nat_text(tdiv(n, d)) + seq!['.'] + frac_text(tmod(n, d), d, 10)
    }
}

/// The canonical decimal text of `n / d`: the sign is printed only when the
/// overall value is negative, then the magnitude's text.
pub open spec fn rat_text(n: int, d: int) -> Seq<char>
    recommends
        d > 0,
{
    if n < 0 {
        seq!['-'] + rat_text_nonneg(-n, d)
    } else {
        rat_text_nonneg(n, d)
    }
}

/// Truncated division and remainder of a nonnegative value agree with
/// Euclidean division and satisfy the usual bounds.
pub proof fn lemma_tdiv_bounds(n: int, d: int)
    requires
        0 <= n,
        d > 0,
    ensures
        tdiv(n, d) >= 0,
        tmod(n, d) == n % d,
        0 <= tmod(n, d) < d,
        n == d * tdiv(n, d) + tmod(n, d),
{
    lemma_fundamental_div_mod(n, d);
    lemma_div_pos_is_pos(n, d);
}

/// The truncated quotient and the remainder's cross-product depend only on
/// the rational value `n / d`, not on the representation.
pub proof fn lemma_tdiv_congruent(n1: int, d1: int, n2: int, d2: int)
    requires
        0 <= n1,
        d1 > 0,
        d2 > 0,
        n1 * d2 == n2 * d1,
    ensures
        0 <= n2,
        tdiv(n1, d1) == tdiv(n2, d2),
        tmod(n1, d1) * d2 == tmod(n2, d2) * d1,
{
    lemma_tdiv_bounds(n1, d1);
    assert(0 <= n2) by (nonlinear_arith)
        requires
            n1 * d2 == n2 * d1,
            0 <= n1,
            d1 > 0,
            d2 > 0,
    ;
    lemma_tdiv_bounds(n2, d2);
    let q = tdiv(n1, d1);
    let r = n2 - d2 * q;
    assert(0 <= r < d2) by (nonlinear_arith)
        requires
            n1 == d1 * q + tmod(n1, d1),
            0 <= tmod(n1, d1) < d1,
            n1 * d2 == n2 * d1,
            r == n2 - d2 * q,
            d1 > 0,
            d2 > 0,
    ;
    vstd::arithmetic::div_mod::lemma_fundamental_div_mod_converse(n2, d2, q, r);
    let r1 = tmod(n1, d1);
    let r2 = tmod(n2, d2);
    assert(r1 == n1 - d1 * q);
    assert(r2 == n2 - d2 * q);
    assert(r1 * d2 == r2 * d1) by (nonlinear_arith)
        requires
            r1 == n1 - d1 * q,
            r2 == n2 - d2 * q,
            n1 * d2 == n2 * d1,
    ;
}

/// Rounding to the nearest integer depends only on the rational value.
pub proof fn lemma_round_congruent(n1: int, d1: int, n2: int, d2: int)
    requires
        0 <= n1,
        d1 > 0,
        d2 > 0,
        n1 * d2 == n2 * d1,
    ensures
        round_away(n1, d1) == round_away(n2, d2),
{
    assert(0 <= n2) by (nonlinear_arith)
        requires
            n1 * d2 == n2 * d1,
            0 <= n1,
            d1 > 0,
            d2 > 0,
    ;
    lemma_tdiv_bounds(2 * n1 + d1, 2 * d1);
    let q = (2 * n1 + d1) / (2 * d1);
    let r = (2 * n2 + d2) - (2 * d2) * q;
    assert(0 <= r < 2 * d2) by (nonlinear_arith)
        requires
            2 * n1 + d1 == 2 * d1 * q + tmod(2 * n1 + d1, 2 * d1),
            0 <= tmod(2 * n1 + d1, 2 * d1) < 2 * d1,
            n1 * d2 == n2 * d1,
            r == (2 * n2 + d2) - (2 * d2) * q,
            d1 > 0,
            d2 > 0,
    ;
    vstd::arithmetic::div_mod::lemma_fundamental_div_mod_converse(2 * n2 + d2, 2 * d2, q, r);
}

/// The fractional-digit text depends only on the rational value `n / d`,
/// not on the representation.
pub proof fn lemma_frac_text_congruent(n1: int, d1: int, n2: int, d2: int, k: nat)
    requires
        d1 > 0,
        d2 > 0,
        0 <= n1 < d1,
        0 <= n2 < d2,
        n1 * d2 == n2 * d1,
    ensures
        frac_text(n1, d1, k) == frac_text(n2, d2, k),
    decreases k,
{
    assert((n1 == 0) == (n2 == 0)) by (nonlinear_arith)
        requires
            n1 * d2 == n2 * d1,
            0 <= n1,
            0 <= n2,
            d1 > 0,
            d2 > 0,
    ;
    assert((10 * n1) * d2 == (10 * n2) * d1) by (nonlinear_arith)
        requires
            n1 * d2 == n2 * d1,
    ;
    if n1 == 0 {
    } else if k == 0 {
        lemma_round_congruent(10 * n1, d1, 10 * n2, d2);
    } else {
        lemma_tdiv_congruent(10 * n1, d1, 10 * n2, d2);
        lemma_tdiv_bounds(10 * n1, d1);
        lemma_tdiv_bounds(10 * n2, d2);
        lemma_frac_text_congruent(tmod(10 * n1, d1), d1, tmod(10 * n2, d2), d2, (k - 1) as nat);
    }
}

/// The whole canonical text depends only on the rational value: values with
/// the same mathematical value render identically, whatever their stored
/// numerator and denominator.
pub proof fn lemma_text_independent_of_representation(n1: int, d1: int, n2: int, d2: int)
    requires
        d1 > 0,
        d2 > 0,
        n1 * d2 == n2 * d1,
    ensures
        rat_text(n1, d1) == rat_text(n2, d2),
{
    assert((n1 < 0) == (n2 < 0) && (n1 == 0) == (n2 == 0)) by (nonlinear_arith)
        requires
            n1 * d2 == n2 * d1,
            d1 > 0,
            d2 > 0,
    ;
    assert((-n1) * d2 == (-n2) * d1) by (nonlinear_arith)
        requires
            n1 * d2 == n2 * d1,
    ;
    if n1 < 0 {
        lemma_rat_text_nonneg_congruent(-n1, d1, -n2, d2);
    } else {
        lemma_rat_text_nonneg_congruent(n1, d1, n2, d2);
    }
}

proof fn lemma_rat_text_nonneg_congruent(n1: int, d1: int, n2: int, d2: int)
    requires
        d1 > 0,
        d2 > 0,
        0 <= n1,
        0 <= n2,
        n1 * d2 == n2 * d1,
    ensures
        rat_text_nonneg(n1, d1) == rat_text_nonneg(n2, d2),
{
    lemma_tdiv_congruent(n1, d1, n2, d2);
    lemma_tdiv_bounds(n1, d1);
    lemma_tdiv_bounds(n2, d2);
    assert((tmod(n1, d1) == 0) == (tmod(n2, d2) == 0)) by (nonlinear_arith)
        requires
            tmod(n1, d1) * d2 == tmod(n2, d2) * d1,
            0 <= tmod(n1, d1),
            0 <= tmod(n2, d2),
            d1 > 0,
            d2 > 0,
    ;
    if tmod(n1, d1) != 0 {
        lemma_frac_text_congruent(tmod(n1, d1), d1, tmod(n2, d2), d2, 10);
    }
}

/// A value that is an exact integer renders as that integer's plain decimal
/// text: no decimal point appears at all.
pub proof fn lemma_integral_text(n: int, d: int)
    requires
        d > 0,
        tmod(n, d) == 0,
    ensures
        rat_text(n, d) == int_text(tdiv(n, d)),
{
    if n >= 0 {
        lemma_tdiv_bounds(n, d);
    } else {
        lemma_tdiv_bounds(-n, d);
        assert(tdiv(-n, d) == -tdiv(n, d));
        assert(tmod(-n, d) == -n - d * tdiv(-n, d));
        assert(d * (-tdiv(n, d)) == -(d * tdiv(n, d))) by (nonlinear_arith);
        assert(tmod(-n, d) == -tmod(n, d));
        assert(n == d * tdiv(n, d));
        assert(tdiv(n, d) < 0) by (nonlinear_arith)
            requires
                n == d * tdiv(n, d),
                n < 0,
                d > 0,
        ;
        assert(int_text(tdiv(n, d)) == seq!['-'] + nat_text(-tdiv(n, d)));
        assert(rat_text(n, d) == seq!['-'] + nat_text(tdiv(-n, d)));
    }
}

/// An exact rational number in canonical form: the denominator is positive.
pub struct Number {
    val: BigRational,
}

impl Number {
    /// The numerator of the stored rational.
    pub closed spec fn num(self) -> int {
        numer_of(self.val)
    }

    /// The denominator of the stored rational.
    pub closed spec fn den(self) -> int {
        denom_of(self.val)
    }

    /// Canonical form: the stored denominator is positive, as `num_rational`
    /// keeps it for every value it constructs.
    pub open spec fn wf(self) -> bool {
        self.den() > 0
    }

    pub fn new(val: BigRational) -> (n: Number)
        requires
            denom_of(val) > 0,
        ensures
            n.wf(),
            n.num() == numer_of(val),
            n.den() == denom_of(val),
    {
        Number { val }
    }

    /// The exact integral rational `b / 1`.
    pub fn from_integer(b: BigInt) -> (n: Number)
        ensures
            n.wf(),
            n.num() == int_of(b),
            n.den() == 1,
    {
        Number { val: rat_from_integer(b) }
    }

    /// The integer part, truncated toward zero.
    pub fn to_integer(&self) -> (b: BigInt)
        requires
            self.wf(),
        ensures
            int_of(b) == tdiv(self.num(), self.den()),
    {
        rat_to_integer(&self.val)
    }

    /// Exact addition.
    pub fn add(self, other: Number) -> (r: Number)
        requires
            self.wf(),
            other.wf(),
        ensures
            r.wf(),
            r.num() * (self.den() * other.den()) == (self.num() * other.den() + other.num()
                * self.den()) * r.den(),
    {
        Number { val: rat_add(self.val, other.val) }
    }

    /// Exact subtraction.
    pub fn sub(self, other: Number) -> (r: Number)
        requires
            self.wf(),
            other.wf(),
        ensures
            r.wf(),
            r.num() * (self.den() * other.den()) == (self.num() * other.den() - other.num()
                * self.den()) * r.den(),
    {
        Number { val: rat_sub(self.val, other.val) }
    }

    /// Exact multiplication.
    pub fn mul(self, other: Number) -> (r: Number)
        requires
            self.wf(),
            other.wf(),
        ensures
            r.wf(),
            r.num() * (self.den() * other.den()) == (self.num() * other.num()) * r.den(),
    {
        Number { val: rat_mul(self.val, other.val) }
    }

    /// Exact division; the divisor must not be zero.
    pub fn div(self, other: Number) -> (r: Number)
        requires
            self.wf(),
            other.wf(),
            other.num() != 0,
        ensures
            r.wf(),
            r.num() * (self.den() * other.num()) == (self.num() * other.den()) * r.den(),
    {
        Number { val: rat_div(self.val, other.val) }
    }

    /// Exact negation.
    pub fn neg(&self) -> (r: Number)
        requires
            self.wf(),
        ensures
            r.wf(),
            r.num() == -self.num(),
            r.den() == self.den(),
    {
        Number { val: rat_neg(&self.val) }
    }

    /// A copy holding the same rational.
    pub fn duplicate(&self) -> (r: Number)
        ensures
            r.num() == self.num(),
            r.den() == self.den(),
    {
        Number { val: rat_clone(&self.val) }
    }

    /// The mathematical order of the two rational values.
    pub fn compare(&self, other: &Number) -> (o: core::cmp::Ordering)
        requires
            self.wf(),
            other.wf(),
        ensures
            (o == core::cmp::Ordering::Less) == value_lt(
                self.num(),
                self.den(),
                other.num(),
                other.den(),
            ),
            (o == core::cmp::Ordering::Equal) == same_value(
                self.num(),
                self.den(),
                other.num(),
                other.den(),
            ),
            (o == core::cmp::Ordering::Greater) == value_lt(
                other.num(),
                other.den(),
                self.num(),
                self.den(),
            ),
    {
        rat_cmp(&self.val, &other.val)
    }

    /// The canonical decimal text of the value: the sign only when the value
    /// is negative, the truncated integer part, and, if the remainder is not
    /// zero, a decimal point followed by up to ten exact fractional digits
    /// and, when the remainder still is not exhausted, one rounded digit.
    pub fn to_css_string(&self) -> (s: String)
        requires
            self.wf(),
        ensures
            s@ == rat_text(self.num(), self.den()),
    {
        let ghost n0 = self.num();
        let ghost d0 = self.den();
        let ghost nm: int = if n0 < 0 {
            -n0
        } else {
            n0
        };
        let mut out = String::new();
        let zero = rat_from_integer(bigint_from_i64(0));
        let o = rat_cmp(&self.val, &zero);
        let neg = matches!(o, core::cmp::Ordering::Less);
        proof {
            assert((n0 * 1 < 0 * d0) == (n0 < 0)) by (nonlinear_arith)
                requires
                    d0 > 0,
            ;
            reveal_strlit("-");
            reveal_strlit(".");
        }
        if neg {
            out.append("-");
        }
        let ghost sign: Seq<char> = if n0 < 0 {
            seq!['-']
        } else {
            Seq::empty()
        };
        assert(out@ =~= sign);
        let m = if neg {
            rat_neg(&self.val)
        } else {
            rat_clone(&self.val)
        };
        proof {
            lemma_tdiv_bounds(nm, d0);
        }
        let ip = rat_to_integer(&m);
        let ip_text = bigint_text(&ip);
        out.append(ip_text.as_str());
        assert(out@ =~= sign + nat_text(tdiv(nm, d0)));
        let mut frac = rat_fract(&m);
        let o2 = rat_cmp(&frac, &zero);
        let mut fz = matches!(o2, core::cmp::Ordering::Equal);
        proof {
            assert((tmod(nm, d0) * 1 == 0 * d0) == (tmod(nm, d0) == 0)) by (nonlinear_arith)
                requires
                    d0 > 0,
            ;
        }
        if !fz {
            out.append(".");
            let ghost f0 = tmod(nm, d0);
            let ghost gd = d0;
            let ghost mut gn = f0;
            let ghost header = sign + nat_text(tdiv(nm, d0)) + seq!['.'];
            assert(out@ =~= header);
            let mut i: usize = 0;
            while i < 10 && !fz
                invariant
                    0 <= i <= 10,
                    gd == d0,
                    d0 > 0,
                    0 <= gn < gd,
                    0 <= f0 < gd,
                    denom_of(frac) > 0,
                    0 <= numer_of(frac) < denom_of(frac),
                    numer_of(frac) * gd == gn * denom_of(frac),
                    fz == (gn == 0),
                    denom_of(zero) == 1 && numer_of(zero) == 0,
                    out@ + frac_text(gn, gd, (10 - i) as nat) == header + frac_text(f0, gd, 10),
                decreases 10 - i,
            {
                let ten = rat_from_integer(bigint_from_i64(10));
                let frac10 = rat_mul(frac, ten);
                let ghost n10 = numer_of(frac10);
                let ghost d10 = denom_of(frac10);
                let ghost nf = numer_of(frac);
                let ghost df = denom_of(frac);
                proof {
                    assert(n10 * gd == (10 * gn) * d10) by (nonlinear_arith)
                        requires
                            n10 * (df * 1) == (nf * 10) * d10,
                            nf * gd == gn * df,
                            df > 0,
                            gd > 0,
                            d10 > 0,
                    ;
                    lemma_tdiv_congruent(10 * gn, gd, n10, d10);
                    lemma_tdiv_bounds(10 * gn, gd);
                    lemma_tdiv_bounds(n10, d10);
                }
                let digit = rat_to_integer(&frac10);
                let digit_text = bigint_text(&digit);
                out.append(digit_text.as_str());
                frac = rat_fract(&frac10);
                let o3 = rat_cmp(&frac, &zero);
                fz = matches!(o3, core::cmp::Ordering::Equal);
                proof {
                    let gn_old = gn;
                    gn = tmod(10 * gn, gd);
                    assert(tmod(10 * gn_old, gd) * d10 == tmod(n10, d10) * gd);
                    assert((tmod(n10, d10) * 1 == 0 * d10) == (gn == 0)) by (nonlinear_arith)
                        requires
                            tmod(10 * gn_old, gd) * d10 == tmod(n10, d10) * gd,
                            gn == tmod(10 * gn_old, gd),
                            0 <= tmod(n10, d10),
                            0 <= gn,
                            gd > 0,
                            d10 > 0,
                    ;
                    assert(frac_text(gn_old, gd, (10 - i) as nat) == nat_text(tdiv(10 * gn_old, gd))
                        + frac_text(gn, gd, (10 - (i + 1)) as nat));
                    assert(out@ + frac_text(gn, gd, (10 - (i + 1)) as nat) =~= header + frac_text(
                        f0,
                        gd,
                        10,
                    ));
                }
                i += 1;
            }
            if !fz {
                let ten = rat_from_integer(bigint_from_i64(10));
                let frac10 = rat_mul(frac, ten);
                let ghost n10 = numer_of(frac10);
                let ghost d10 = denom_of(frac10);
                let ghost nf = numer_of(frac);
                let ghost df = denom_of(frac);
                proof {
                    assert(n10 * gd == (10 * gn) * d10) by (nonlinear_arith)
                        requires
                            n10 * (df * 1) == (nf * 10) * d10,
                            nf * gd == gn * df,
                            df > 0,
                            gd > 0,
                            d10 > 0,
                    ;
                    assert(0 <= n10) by (nonlinear_arith)
                        requires
                            n10 * gd == (10 * gn) * d10,
                            0 <= gn,
                            gd > 0,
                            d10 > 0,
                    ;
                    lemma_round_congruent(10 * gn, gd, n10, d10);
                    lemma_div_pos_is_pos(2 * (10 * gn) + gd, 2 * gd);
                }
                let rounded = rat_round(&frac10);
                let digit = rat_to_integer(&rounded);
                let digit_text = bigint_text(&digit);
                out.append(digit_text.as_str());
                proof {
                    assert(int_of(digit) == round_away(10 * gn, gd));
                    assert(frac_text(gn, gd, 0) == nat_text(round_away(10 * gn, gd)));
                    assert(out@ =~= header + frac_text(f0, gd, 10));
                }
            }
            assert(out@ =~= sign + rat_text_nonneg(nm, d0));
        } else {
            assert(out@ =~= sign + rat_text_nonneg(nm, d0));
        }
        proof {
            if n0 < 0 {
                assert(out@ =~= rat_text(n0, d0));
            } else {
                assert(out@ =~= rat_text(n0, d0));
            }
        }
        out
    }

    /// Mathematical equality of the two rational values.
    pub fn equals(&self, other: &Number) -> (r: bool)
        requires
            self.wf(),
            other.wf(),
        ensures
            r == same_value(self.num(), self.den(), other.num(), other.den()),
    {
        matches!(self.compare(other), core::cmp::Ordering::Equal)
    }
}

/// Exact arithmetic: if `s` is the sum `a + b` and `r` is the difference
/// `s - b`, then `r` denotes exactly the rational value of `a` — adding and
/// then subtracting the same value causes no drift at all.
pub proof fn lemma_exact_arithmetic(a: Number, b: Number, s: Number, r: Number)
    requires
        a.wf(),
        b.wf(),
        s.wf(),
        r.wf(),
        s.num() * (a.den() * b.den()) == (a.num() * b.den() + b.num() * a.den()) * s.den(),
        r.num() * (s.den() * b.den()) == (s.num() * b.den() - b.num() * s.den()) * r.den(),
    ensures
        same_value(r.num(), r.den(), a.num(), a.den()),
{
    let an = a.num();
    let ad = a.den();
    let bn = b.num();
    let bd = b.den();
    let sn = s.num();
    let sd = s.den();
    let rn = r.num();
    let rd = r.den();
    assert(rn * (sd * bd) * (ad * sd) == ((sn * bd - bn * sd) * rd) * (ad * sd))
        by (nonlinear_arith)
        requires
            rn * (sd * bd) == (sn * bd - bn * sd) * rd,
    ;
    assert(((sn * bd - bn * sd) * rd) * (ad * sd) == (sn * bd) * (rd * (ad * sd)) - (bn * sd) * (rd
        * (ad * sd))) by (nonlinear_arith);
    assert((sn * bd) * (rd * (ad * sd)) == (sn * (ad * bd)) * (rd * sd)) by (nonlinear_arith);
    assert((bn * sd) * (rd * (ad * sd)) == (bn * ad) * (sd * rd * sd)) by (nonlinear_arith);
    assert(((sn * bd - bn * sd) * rd) * (ad * sd) == (sn * (ad * bd)) * (rd * sd) - (bn * ad) * (sd
        * rd * sd));
    assert((sn * (ad * bd)) * (rd * sd) == ((an * bd + bn * ad) * sd) * (rd * sd))
        by (nonlinear_arith)
        requires
            sn * (ad * bd) == (an * bd + bn * ad) * sd,
    ;
    assert(((an * bd + bn * ad) * sd) * (rd * sd) == (an * bd) * (sd * rd * sd) + (bn * ad) * (sd
        * rd * sd)) by (nonlinear_arith);
    assert((an * bd) * (sd * rd * sd) == (an * rd) * (sd * sd * bd)) by (nonlinear_arith);
    assert(rn * (sd * bd) * (ad * sd) == (rn * ad) * (sd * sd * bd)) by (nonlinear_arith);
    assert((rn * ad) * (sd * sd * bd) == (an * rd) * (sd * sd * bd));
    assert(sd * sd * bd > 0) by (nonlinear_arith)
        requires
            sd > 0,
            bd > 0,
    ;
    assert(rn * ad == an * rd) by (nonlinear_arith)
        requires
            (rn * ad) * (sd * sd * bd) == (an * rd) * (sd * sd * bd),
            sd * sd * bd > 0,
    ;
}

/// The ordering of rational values is a total order: exactly one of
/// "below", "same value" and "above" holds of any two well-formed values,
/// and "below" is transitive.
pub proof fn lemma_ordering_total(a: Number, b: Number, c: Number)
    requires
        a.wf(),
        b.wf(),
        c.wf(),
    ensures
        value_lt(a.num(), a.den(), b.num(), b.den()) || same_value(
            a.num(),
            a.den(),
            b.num(),
            b.den(),
        ) || value_lt(b.num(), b.den(), a.num(), a.den()),
        !(value_lt(a.num(), a.den(), b.num(), b.den()) && value_lt(
            b.num(),
            b.den(),
            a.num(),
            a.den(),
        )),
        same_value(a.num(), a.den(), b.num(), b.den()) ==> !value_lt(
            a.num(),
            a.den(),
            b.num(),
            b.den(),
        ),
        value_lt(a.num(), a.den(), b.num(), b.den()) && value_lt(
            b.num(),
            b.den(),
            c.num(),
            c.den(),
        ) ==> value_lt(a.num(), a.den(), c.num(), c.den()),
{
    if value_lt(a.num(), a.den(), b.num(), b.den()) && value_lt(
        b.num(),
        b.den(),
        c.num(),
        c.den(),
    ) {
        assert(value_lt(a.num(), a.den(), c.num(), c.den())) by (nonlinear_arith)
            requires
                a.num() * b.den() < b.num() * a.den(),
                b.num() * c.den() < c.num() * b.den(),
                a.den() > 0,
                b.den() > 0,
                c.den() > 0,
        ;
    }
}

/// Equality of rational values does not depend on the stored representation:
/// two values denoting the same rational compare identically against any
/// third value.
pub proof fn lemma_eq_independent_of_representation(a: Number, b: Number, c: Number)
    requires
        a.wf(),
        b.wf(),
        c.wf(),
        same_value(a.num(), a.den(), b.num(), b.den()),
    ensures
        value_lt(a.num(), a.den(), c.num(), c.den()) == value_lt(
            b.num(),
            b.den(),
            c.num(),
            c.den(),
        ),
        value_lt(c.num(), c.den(), a.num(), a.den()) == value_lt(
            c.num(),
            c.den(),
            b.num(),
            b.den(),
        ),
        same_value(a.num(), a.den(), c.num(), c.den()) == same_value(
            b.num(),
            b.den(),
            c.num(),
            c.den(),
        ),
{
    let an = a.num();
    let ad = a.den();
    let bn = b.num();
    let bd = b.den();
    let cn = c.num();
    let cd = c.den();
    assert(((an * cd < cn * ad) == (bn * cd < cn * bd)) && ((cn * ad < an * cd) == (cn * bd < bn
        * cd)) && ((an * cd == cn * ad) == (bn * cd == cn * bd))) by (nonlinear_arith)
        requires
            an * bd == bn * ad,
            ad > 0,
            bd > 0,
            cd > 0,
    ;
}

} // verus!
