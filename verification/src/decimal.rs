//! Arbitrary-precision decimals. A `Decimal` holds, as plain values, what a
//! `bigdecimal::BigDecimal` is made of (an integer and a scale); every operation is
//! computed by `bigdecimal` through the wrappers below.

use vstd::prelude::*;
use vstd::arithmetic::power::{lemma_pow_positive, lemma_pow_strictly_increases, pow};
use bigdecimal::BigDecimal;
use bigdecimal::num_bigint::{BigInt, Sign};
use std::str::FromStr;
use bigdecimal::{ToPrimitive, Zero};

verus! {

/// The number `(-1)^negative * digits / 10^scale`, with `digits` in base 10, most
/// significant first, without leading zeros (zero is the single digit 0).
#[derive(Debug)]
pub struct Decimal {
    negative: bool,
    digits: Vec<u8>,
    scale: i64,
}

/// Value of big-endian base-10 digits.
pub open spec fn digits_value(d: Seq<u8>) -> nat
    decreases d.len(),
{
    if d.len() == 0 {
        0
    } else {
        digits_value(d.drop_last()) * 10 + d.last() as nat
    }
}

/// `10^n`, and 1 for `n <= 0`.
pub open spec fn pow10(n: int) -> int {
    if n <= 0 {
        1
    } else {
        pow(10, n as nat)
    }
}

/// The unscaled integer of `d` expressed at scale `k` (for `k >= d.1`): both denote
/// the same number.
pub open spec fn at_scale(d: (int, int), k: int) -> int {
    d.0 * pow10(k - d.1)
}

pub open spec fn max_int(a: int, b: int) -> int {
    if a >= b {
        a
    } else {
        b
    }
}

/// Whether `a` and `b` denote the same number.
pub open spec fn same_value(a: (int, int), b: (int, int)) -> bool {
    let k = max_int(a.1, b.1);
    at_scale(a, k) == at_scale(b, k)
}

/// Whether the number `a` is at most the number `b`.
pub open spec fn value_le(a: (int, int), b: (int, int)) -> bool {
    let k = max_int(a.1, b.1);
    at_scale(a, k) <= at_scale(b, k)
}

/// The integer part of a decimal (rounded toward zero), when it fits in an `i64`.
pub open spec fn decimal_to_i64(d: (int, int)) -> Option<i64> {
    let t = if d.1 >= 0 {
        div_trunc(d.0, pow10(d.1))
    } else {
        d.0 * pow10(-d.1)
    };
    if i64::MIN <= t <= i64::MAX {
        Some(t as i64)
    } else {
        None
    }
}

/// Integer division rounding toward zero (`y > 0`).
pub open spec fn div_trunc(x: int, y: int) -> int {
    if x >= 0 {
        x / y
    } else {
        -((-x) / y)
    }
}

/// Remainder whose sign follows the dividend (`y != 0`), as `BigInt`'s `%` computes it.
pub open spec fn rem_trunc(x: int, y: int) -> int {
    let m = if y < 0 {
        -y
    } else {
        y
    };
    if x >= 0 {
        x % m
    } else {
        -((-x) % m)
    }
}

/// The exact sum, at the larger scale.
pub open spec fn decimal_sum(a: (int, int), b: (int, int)) -> (int, int) {
    let k = max_int(a.1, b.1);
    (at_scale(a, k) + at_scale(b, k), k)
}

/// The exact difference: a zero operand leaves the other's scale as it is, otherwise
/// the larger scale is used.
pub open spec fn decimal_difference(a: (int, int), b: (int, int)) -> (int, int) {
    if b.0 == 0 {
        a
    } else if a.0 == 0 {
        (-b.0, b.1)
    } else {
        let k = max_int(a.1, b.1);
        (at_scale(a, k) - at_scale(b, k), k)
    }
}

/// The remainder at the larger scale, with the sign of the dividend.
pub open spec fn decimal_remainder(a: (int, int), b: (int, int)) -> (int, int) {
    let k = max_int(a.1, b.1);
    (rem_trunc(at_scale(a, k), at_scale(b, k)), k)
}

/// `Ord::max`: the second operand unless the first is larger.
pub open spec fn decimal_max(a: (int, int), b: (int, int)) -> (int, int) {
    if value_le(a, b) {
        b
    } else {
        a
    }
}

/// `Ord::min`: the first operand unless it is larger.
pub open spec fn decimal_min(a: (int, int), b: (int, int)) -> (int, int) {
    if value_le(a, b) {
        a
    } else {
        b
    }
}

/// How many decimal digits `n` has (one for zero).
pub open spec fn num_digits(n: nat) -> nat
    decreases n,
{
    if n < 10 {
        1
    } else {
        1 + num_digits(n / 10)
    }
}

/// The magnitude of an integer.
pub open spec fn magnitude(n: int) -> nat {
    if n < 0 {
        (-n) as nat
    } else {
        n as nat
    }
}

/// How far a division may raise the scale beyond the operands' scale difference and
/// the divisor's digits: `bigdecimal` computes a quotient to a precision fixed when it
/// is built (a `u32`, 100 unless configured), and every such setting is below this.
pub const DIVISION_PRECISION_BOUND: i64 = 4294967295;

/// Whether `a / b` keeps its scale within an `i64`: the quotient's scale is at most
/// the scale difference, plus one per digit of the divisor, plus the precision.
pub open spec fn quotient_scale_fits(a: (int, int), b: (int, int)) -> bool {
    &&& i64::MIN <= a.1 - b.1
    &&& a.1 - b.1 + num_digits(magnitude(b.0)) + DIVISION_PRECISION_BOUND <= i64::MAX
}

/// Whether `bigdecimal` can bring a value to scale 0: zero, or a scale other than
/// `i64::MIN` (whose distance to 0 does not fit in an `i64`).
pub open spec fn rescalable_to_zero(d: (int, int)) -> bool {
    d.0 == 0 || d.1 != i64::MIN
}

/// Whether `bigdecimal` can bring the nonzero value `d` up to scale `k`: the scale
/// difference must fit in an `i64`.
pub open spec fn rescales_to(d: (int, int), k: int) -> bool {
    d.0 == 0 || k - d.1 <= i64::MAX
}

/// Whether both operands can be brought to the larger of their scales.
pub open spec fn aligns(a: (int, int), b: (int, int)) -> bool {
    let k = max_int(a.1, b.1);
    rescales_to(a, k) && rescales_to(b, k)
}

/// What `BigDecimal::from_str` gives for a text (`None` for an error).
pub uninterp spec fn decimal_parse(s: Seq<char>) -> Option<(int, int)>;

/// What `BigDecimal`'s `*` gives.
pub uninterp spec fn decimal_product(a: (int, int), b: (int, int)) -> (int, int);

/// What `BigDecimal`'s `/` gives.
pub uninterp spec fn decimal_quotient(a: (int, int), b: (int, int)) -> (int, int);

/// What `format!("{:.2}", d)` writes for a `BigDecimal`.
pub uninterp spec fn decimal_text_2(d: (int, int)) -> Seq<char>;

impl View for Decimal {
    type V = (int, int);

    /// The unscaled integer and the scale.
    closed spec fn view(&self) -> (int, int) {
        (
            if self.negative {
                -(digits_value(self.digits@) as int)
            } else {
                digits_value(self.digits@) as int
            },
            self.scale as int,
        )
    }
}

impl Decimal {
    /// The digits are canonical: base-10, no leading zero, and zero is not negative.
    #[verifier::type_invariant]
    pub closed spec fn wf(self) -> bool {
        &&& self.digits@.len() >= 1
        &&& forall|i: int| 0 <= i < self.digits@.len() ==> self.digits@[i] < 10
        &&& self.digits@.len() > 1 ==> self.digits@[0] != 0
        &&& self.negative ==> digits_value(self.digits@) != 0
    }

    /// A scale is an `i64`.
    pub proof fn lemma_scale_bounds(&self)
        ensures
            i64::MIN <= self@.1 <= i64::MAX,
    {
    }

    /// The scale: how many digits of the integer are after the decimal point.
    pub fn scale(&self) -> (r: i64)
        ensures
            r == self@.1,
    {
        self.scale
    }

    /// Zero at scale 0 (what `BigDecimal::default()` is).
    pub fn zero() -> (r: Decimal)
        ensures
            r@ == (0int, 0int),
    {
        let mut digits: Vec<u8> = Vec::new();
        digits.push(0);
        proof {
            assert(digits@.drop_last() =~= Seq::<u8>::empty());
            assert(digits_value(digits@.drop_last()) == 0);
            assert(digits_value(digits@) == 0);
        }
        Decimal { negative: false, digits, scale: 0 }
    }

    /// `BigDecimal::from(i64)`: the integer at scale 0.
    #[verifier::external_body]
    pub(crate) fn from_i64(n: i64) -> (r: Decimal)
        ensures
            r@ == (n as int, 0int),
    {
        let (n, scale) = BigDecimal::from(n).into_bigint_and_exponent();
        let (sign, digits) = n.to_radix_be(10);
        Decimal { negative: sign == Sign::Minus, digits, scale }
    }

    /// `BigDecimal::from_str`: parses a decimal text.
    #[verifier::external_body]
    pub(crate) fn parse(text: &[char]) -> (r: Option<Decimal>)
        ensures
            r is Some <==> decimal_parse(text@) is Some,
            r matches Some(d) ==> d@ == decimal_parse(text@)->0,
    {
        let s: String = text.iter().collect();
        let (n, scale) = BigDecimal::from_str(&s).ok()?.into_bigint_and_exponent();
        let (sign, digits) = n.to_radix_be(10);
        Some(Decimal { negative: sign == Sign::Minus, digits, scale })
    }

    /// How many decimal digits the integer has.
    pub fn digit_count(&self) -> (r: usize)
        ensures
            r == num_digits(magnitude(self@.0)),
    {
        proof {
            use_type_invariant(self);
            lemma_digits_count(self.digits@);
        }
        self.digits.len()
    }

    /// A copy.
    pub fn copy(&self) -> (r: Decimal)
        ensures
            r@ == self@,
    {
        proof {
            use_type_invariant(self);
        }
        let mut digits: Vec<u8> = Vec::new();
        let mut i: usize = 0;
        while i < self.digits.len()
            invariant
                i <= self.digits@.len(),
                digits@ == self.digits@.take(i as int),
            decreases self.digits@.len() - i,
        {
            digits.push(self.digits[i]);
            i = i + 1;
            assert(digits@ =~= self.digits@.take(i as int));
        }
        assert(digits@ =~= self.digits@);
        Decimal { negative: self.negative, digits, scale: self.scale }
    }

    /// `BigDecimal == BigDecimal`: compares the numbers.
    #[verifier::external_body]
    pub(crate) fn equals(&self, other: &Decimal) -> (r: bool)
        ensures
            r == same_value(self@, other@),
    {
        let a = BigDecimal::new(BigInt::from_radix_be(match self.negative { true => Sign::Minus, false => Sign::Plus }, &self.digits, 10).unwrap(), self.scale);
        let b = BigDecimal::new(BigInt::from_radix_be(match other.negative { true => Sign::Minus, false => Sign::Plus }, &other.digits, 10).unwrap(), other.scale);
        a == b
    }

    /// `BigDecimal == i64`: compares the number with an integer.
    #[verifier::external_body]
    pub(crate) fn equals_i64(&self, other: i64) -> (r: bool)
        ensures
            r == same_value(self@, (other as int, 0int)),
    {
        let a = BigDecimal::new(BigInt::from_radix_be(match self.negative { true => Sign::Minus, false => Sign::Plus }, &self.digits, 10).unwrap(), self.scale);
        a == other
    }

    /// `BigDecimal == BigDecimal::zero()`.
    #[verifier::external_body]
    pub(crate) fn is_zero(&self) -> (r: bool)
        ensures
            r == (self@.0 == 0),
    {
        let a = BigDecimal::new(BigInt::from_radix_be(match self.negative { true => Sign::Minus, false => Sign::Plus }, &self.digits, 10).unwrap(), self.scale);
        a == BigDecimal::zero()
    }

    /// `BigDecimal + BigDecimal`: the exact sum, at the larger of the two scales.
    /// `bigdecimal` brings each nonzero operand to that scale, and panics where the
    /// scale difference does not fit in an `i64`: such operands are left out.
    #[verifier::external_body]
    pub(crate) fn add(&self, other: &Decimal) -> (r: Decimal)
        requires
            aligns(self@, other@),
        ensures
            r@ == decimal_sum(self@, other@),
    {
        let a = BigDecimal::new(BigInt::from_radix_be(match self.negative { true => Sign::Minus, false => Sign::Plus }, &self.digits, 10).unwrap(), self.scale);
        let b = BigDecimal::new(BigInt::from_radix_be(match other.negative { true => Sign::Minus, false => Sign::Plus }, &other.digits, 10).unwrap(), other.scale);
        let (n, scale) = (a + b).into_bigint_and_exponent();
        let (sign, digits) = n.to_radix_be(10);
        Decimal { negative: sign == Sign::Minus, digits, scale }
    }

    /// `BigDecimal - BigDecimal`: the exact difference; a zero operand leaves the other
    /// operand's scale unchanged, otherwise the larger scale is used. Two nonzero
    /// operands whose scales `bigdecimal` cannot align (the difference does not fit in
    /// an `i64`, and it panics) are left out.
    #[verifier::external_body]
    pub(crate) fn sub(&self, other: &Decimal) -> (r: Decimal)
        requires
            self@.0 == 0 || other@.0 == 0 || aligns(self@, other@),
        ensures
            r@ == decimal_difference(self@, other@),
    {
        let a = BigDecimal::new(BigInt::from_radix_be(match self.negative { true => Sign::Minus, false => Sign::Plus }, &self.digits, 10).unwrap(), self.scale);
        let b = BigDecimal::new(BigInt::from_radix_be(match other.negative { true => Sign::Minus, false => Sign::Plus }, &other.digits, 10).unwrap(), other.scale);
        let (n, scale) = (a - b).into_bigint_and_exponent();
        let (sign, digits) = n.to_radix_be(10);
        Decimal { negative: sign == Sign::Minus, digits, scale }
    }

    /// `BigDecimal * BigDecimal`: the exact product (its representation is named). Its
    /// scale is the scales' sum, or an operand's own scale where the other operand is
    /// one. The scales' sum must fit in an `i64`, or `bigdecimal` overflows.
    #[verifier::external_body]
    pub(crate) fn mul(&self, other: &Decimal) -> (r: Decimal)
        requires
            i64::MIN <= self@.1 + other@.1 <= i64::MAX,
        ensures
            r@ == decimal_product(self@, other@),
            ({
                let k = max_int(r@.1, self@.1 + other@.1);
                at_scale(r@, k) == self@.0 * other@.0 * pow10(k - self@.1 - other@.1)
            }),
            r@.1 == self@.1 + other@.1 || r@.1 == self@.1 || r@.1 == other@.1,
    {
        let a = BigDecimal::new(BigInt::from_radix_be(match self.negative { true => Sign::Minus, false => Sign::Plus }, &self.digits, 10).unwrap(), self.scale);
        let b = BigDecimal::new(BigInt::from_radix_be(match other.negative { true => Sign::Minus, false => Sign::Plus }, &other.digits, 10).unwrap(), other.scale);
        let (n, scale) = (a * b).into_bigint_and_exponent();
        let (sign, digits) = n.to_radix_be(10);
        Decimal { negative: sign == Sign::Minus, digits, scale }
    }

    /// `BigDecimal / BigDecimal`, rounded by `bigdecimal` to its default precision
    /// (the result is named; nothing more is stated of it). The divisor must not be
    /// zero, or `bigdecimal` panics; and the scale it computes (the scale difference,
    /// raised once per digit of the divisor while the numerator is shifted, then once
    /// per digit of precision) must fit in an `i64`, or its `scale += 1` overflows.
    #[verifier::external_body]
    pub(crate) fn div(&self, other: &Decimal) -> (r: Decimal)
        requires
            other@.0 != 0,
            quotient_scale_fits(self@, other@),
        ensures
            r@ == decimal_quotient(self@, other@),
    {
        let a = BigDecimal::new(BigInt::from_radix_be(match self.negative { true => Sign::Minus, false => Sign::Plus }, &self.digits, 10).unwrap(), self.scale);
        let b = BigDecimal::new(BigInt::from_radix_be(match other.negative { true => Sign::Minus, false => Sign::Plus }, &other.digits, 10).unwrap(), other.scale);
        let (n, scale) = (a / b).into_bigint_and_exponent();
        let (sign, digits) = n.to_radix_be(10);
        Decimal { negative: sign == Sign::Minus, digits, scale }
    }

    /// `BigDecimal % BigDecimal`: both operands brought to the larger scale, then the
    /// integer remainder (sign of the dividend). The divisor must not be zero, and the
    /// scales must align (`bigdecimal` panics otherwise).
    #[verifier::external_body]
    pub(crate) fn rem(&self, other: &Decimal) -> (r: Decimal)
        requires
            other@.0 != 0,
            aligns(self@, other@),
        ensures
            r@ == decimal_remainder(self@, other@),
    {
        let a = BigDecimal::new(BigInt::from_radix_be(match self.negative { true => Sign::Minus, false => Sign::Plus }, &self.digits, 10).unwrap(), self.scale);
        let b = BigDecimal::new(BigInt::from_radix_be(match other.negative { true => Sign::Minus, false => Sign::Plus }, &other.digits, 10).unwrap(), other.scale);
        let (n, scale) = (a % b).into_bigint_and_exponent();
        let (sign, digits) = n.to_radix_be(10);
        Decimal { negative: sign == Sign::Minus, digits, scale }
    }

    /// `Ord::max` on `BigDecimal`: the second operand unless the first is larger.
    #[verifier::external_body]
    pub(crate) fn max(&self, other: &Decimal) -> (r: Decimal)
        ensures
            r@ == decimal_max(self@, other@),
    {
        let a = BigDecimal::new(BigInt::from_radix_be(match self.negative { true => Sign::Minus, false => Sign::Plus }, &self.digits, 10).unwrap(), self.scale);
        let b = BigDecimal::new(BigInt::from_radix_be(match other.negative { true => Sign::Minus, false => Sign::Plus }, &other.digits, 10).unwrap(), other.scale);
        let (n, scale) = a.max(b).into_bigint_and_exponent();
        let (sign, digits) = n.to_radix_be(10);
        Decimal { negative: sign == Sign::Minus, digits, scale }
    }

    /// `Ord::min` on `BigDecimal`: the first operand unless it is larger.
    #[verifier::external_body]
    pub(crate) fn min(&self, other: &Decimal) -> (r: Decimal)
        ensures
            r@ == decimal_min(self@, other@),
    {
        let a = BigDecimal::new(BigInt::from_radix_be(match self.negative { true => Sign::Minus, false => Sign::Plus }, &self.digits, 10).unwrap(), self.scale);
        let b = BigDecimal::new(BigInt::from_radix_be(match other.negative { true => Sign::Minus, false => Sign::Plus }, &other.digits, 10).unwrap(), other.scale);
        let (n, scale) = a.min(b).into_bigint_and_exponent();
        let (sign, digits) = n.to_radix_be(10);
        Decimal { negative: sign == Sign::Minus, digits, scale }
    }

    /// `BigDecimal::with_scale(0)`: drops the fraction (rounding toward zero). A
    /// nonzero value whose scale is `i64::MIN` is left out: `bigdecimal` computes
    /// `0 - scale`, which overflows.
    #[verifier::external_body]
    pub(crate) fn with_scale_zero(&self) -> (r: Decimal)
        requires
            rescalable_to_zero(self@),
        ensures
            r@ == (if self@.1 >= 0 {
                div_trunc(self@.0, pow10(self@.1))
            } else {
                self@.0 * pow10(-self@.1)
            }, 0int),
    {
        let a = BigDecimal::new(BigInt::from_radix_be(match self.negative { true => Sign::Minus, false => Sign::Plus }, &self.digits, 10).unwrap(), self.scale);
        let (n, scale) = a.with_scale(0).into_bigint_and_exponent();
        let (sign, digits) = n.to_radix_be(10);
        Decimal { negative: sign == Sign::Minus, digits, scale }
    }

    /// `ToPrimitive::to_i64`: the integer part (rounded toward zero) when it fits.
    /// A nonzero value whose scale is `i64::MIN` is left out: `bigdecimal` rescales it
    /// to scale 0, and the scale difference does not fit in an `i64` (it panics).
    #[verifier::external_body]
    pub(crate) fn to_i64(&self) -> (r: Option<i64>)
        requires
            rescalable_to_zero(self@),
        ensures
            r == decimal_to_i64(self@),
    {
        let a = BigDecimal::new(BigInt::from_radix_be(match self.negative { true => Sign::Minus, false => Sign::Plus }, &self.digits, 10).unwrap(), self.scale);
        a.to_i64()
    }

    /// `format!("{:.2}", d)`: the text `bigdecimal` writes with two decimal places.
    #[verifier::external_body]
    pub(crate) fn text_2(&self) -> (r: Vec<char>)
        ensures
            r@ == decimal_text_2(self@),
    {
        let a = BigDecimal::new(BigInt::from_radix_be(match self.negative { true => Sign::Minus, false => Sign::Plus }, &self.digits, 10).unwrap(), self.scale);
        format!("{:.2}", a).chars().collect()
    }
}


proof fn lemma_digits_positive(d: Seq<u8>)
    requires
        d.len() >= 1,
        d[0] != 0,
    ensures
        digits_value(d) >= 1,
    decreases d.len(),
{
    if d.len() > 1 {
        let p = d.drop_last();
        assert(p[0] == d[0]);
        lemma_digits_positive(p);
    } else {
        assert(d.drop_last() =~= Seq::<u8>::empty());
    }
}

/// Canonical digits (no leading zero) are exactly as many as the value's digits.
proof fn lemma_digits_count(d: Seq<u8>)
    requires
        d.len() >= 1,
        forall|i: int| 0 <= i < d.len() ==> d[i] < 10,
        d.len() > 1 ==> d[0] != 0,
    ensures
        num_digits(digits_value(d)) == d.len(),
    decreases d.len(),
{
    let p = d.drop_last();
    if d.len() == 1 {
        assert(p =~= Seq::<u8>::empty());
        assert(digits_value(p) == 0);
        assert(d.last() == d[0]);
        assert(digits_value(d) == d[0] as nat);
    } else {
        assert forall|i: int| 0 <= i < p.len() implies p[i] < 10 by {
            assert(p[i] == d[i]);
        }
        assert(p[0] == d[0]);
        lemma_digits_count(p);
        lemma_digits_positive(p);
        let v = digits_value(p);
        let l = d.last() as nat;
        assert(d.last() < 10);
        assert(digits_value(d) == v * 10 + l);
        assert((v * 10 + l) / 10 == v) by (nonlinear_arith)
            requires
                l < 10,
        ;
        assert(v * 10 + l >= 10);
    }
}

/// A nonzero value at scale `i64::MIN` is at least `10^(2^63)` in magnitude, far
/// beyond the range of an `i64`.
pub proof fn lemma_min_scale_out_of_range(d: (int, int))
    requires
        d.0 != 0,
        d.1 == i64::MIN,
    ensures
        decimal_to_i64(d) is None,
{
    let e: nat = (-d.1) as nat;
    let p = pow10(-d.1);
    assert(p == pow(10, e));
    assert(pow(10, 19) == 10000000000000000000int) by {
        reveal_with_fuel(pow, 20);
    }
    lemma_pow_strictly_increases(10, 19, e);
    assert(p > i64::MAX);
    let t = d.0 * p;
    if d.0 > 0 {
        assert(t >= p) by (nonlinear_arith)
            requires
                d.0 >= 1,
                p > 0,
                t == d.0 * p,
        ;
    } else {
        assert(t <= -p) by (nonlinear_arith)
            requires
                d.0 <= -1,
                p > 0,
                t == d.0 * p,
        ;
    }
}

/// A product with a factor at scale 0 can be brought to scale 0 when the other factor
/// can: its scale is that factor's (or 0), and it is zero when that factor is.
pub proof fn lemma_product_rescalable(a: (int, int), b: (int, int), p: (int, int))
    requires
        rescalable_to_zero(a),
        b.1 == 0,
        ({
            let k = max_int(p.1, a.1 + b.1);
            at_scale(p, k) == a.0 * b.0 * pow10(k - a.1 - b.1)
        }),
        p.1 == a.1 + b.1 || p.1 == a.1 || p.1 == b.1,
    ensures
        rescalable_to_zero(p),
{
    if p.1 == i64::MIN {
        assert(a.0 == 0);
        let k = max_int(p.1, a.1 + b.1);
        let q = pow10(k - p.1);
        if k - p.1 > 0 {
            lemma_pow_positive(10, (k - p.1) as nat);
        }
        assert(q > 0);
        let x = pow10(k - a.1 - b.1);
        assert(a.0 * b.0 * x == 0) by (nonlinear_arith)
            requires
                a.0 == 0,
        ;
        assert(p.0 * q == 0);
        assert(p.0 == 0) by (nonlinear_arith)
            requires
                p.0 * q == 0,
                q > 0,
        ;
    }
}

} // verus!
