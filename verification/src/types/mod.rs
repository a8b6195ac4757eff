//! The values a program computes with, their conversions, and the operators.

pub mod identifier;
pub mod primitive;

use vstd::prelude::*;
use crate::app_error::{AppError, AppErrorModel};
use crate::decimal::{Decimal, rem_trunc, decimal_difference, decimal_max, decimal_min, decimal_parse, decimal_product, decimal_quotient, decimal_remainder, quotient_scale_fits, rescalable_to_zero, rescales_to, aligns, DIVISION_PRECISION_BOUND, decimal_sum, same_value};
use crate::expression::{BoolOp, ComparisonExpr, ComparisonOp, MathOp, MathsExpr};
use crate::lexer::{Token, TokenModel, token_views};
use crate::text::{chars_of, int_text, parse_i64};
use self::primitive::{Number, NumberModel, Numbar, Numbr, Troof, Yarn, numbar_text, yarn_troof};

verus! {

broadcast use vstd::string::group_string_axioms;

/// A value.
#[derive(Debug)]
pub enum Value {
    Numbar(Numbar),
    Numbr(Numbr),
    Yarn(Yarn),
    Troof(Troof),
    Noob,
}

/// A value with its payload taken by its view.
pub enum ValueModel {
    Numbar((int, int)),
    Numbr(i64),
    Yarn(Seq<char>),
    Troof(bool),
    Noob,
}

impl View for Value {
    type V = ValueModel;

    open spec fn view(&self) -> ValueModel {
        match self {
            Value::Numbar(n) => ValueModel::Numbar(n@),
            Value::Numbr(n) => ValueModel::Numbr(n@),
            Value::Yarn(y) => ValueModel::Yarn(y@),
            Value::Troof(t) => ValueModel::Troof(t@),
            Value::Noob => ValueModel::Noob,
        }
    }
}

/// The number a value stands for in arithmetic: a YARN is read as a NUMBR if it can
/// be, else as a NUMBAR (one too large to be brought to scale 0 is a number
/// overflow); a TROOF is 1 or 0; NOOB is an error.
pub open spec fn value_as_number(v: ValueModel) -> Result<NumberModel, AppErrorModel> {
    match v {
        ValueModel::Numbr(n) => Ok(NumberModel::Int(n)),
        ValueModel::Numbar(d) => Ok(NumberModel::Decimal(d)),
        ValueModel::Yarn(y) => if parse_i64(y) is Some {
            Ok(NumberModel::Int(parse_i64(y)->0))
        } else if decimal_parse(y) is Some {
            if rescalable_to_zero(decimal_parse(y)->0) {
                Ok(NumberModel::Decimal(decimal_parse(y)->0))
            } else {
                Err(AppErrorModel::NumberOverflow)
            }
        } else {
            Err(AppErrorModel::YarnIsNotANumber(y))
        },
        ValueModel::Troof(t) => Ok(NumberModel::Int(if t {
            1
        } else {
            0
        })),
        ValueModel::Noob => Err(AppErrorModel::CannotPerformMathsOnNoob),
    }
}

/// The truth of a value: non-zero numbers, `yarn_troof` for YARNs, the TROOF itself,
/// and false for NOOB.
pub open spec fn value_as_troof(v: ValueModel) -> bool {
    match v {
        ValueModel::Numbar(d) => d.0 != 0,
        ValueModel::Numbr(n) => n != 0,
        ValueModel::Yarn(y) => yarn_troof(y),
        ValueModel::Troof(t) => t,
        ValueModel::Noob => false,
    }
}

/// The text of a value for VISIBLE: numbers as they are written, YARNs as they are;
/// TROOFs and NOOB cannot be shown this way.
pub open spec fn value_as_yarn(v: ValueModel) -> Result<Seq<char>, AppErrorModel> {
    match v {
        ValueModel::Numbar(d) => Ok(numbar_text(d)),
        ValueModel::Numbr(n) => Ok(int_text(n as int)),
        ValueModel::Yarn(y) => Ok(y),
        ValueModel::Troof(_) => Err(AppErrorModel::CannotVisibleATroof),
        ValueModel::Noob => Err(AppErrorModel::CannotVisibleANoob),
    }
}

/// How a value is written (its `Display`).
pub open spec fn value_text(v: ValueModel) -> Seq<char> {
    match v {
        ValueModel::Numbar(d) => numbar_text(d),
        ValueModel::Numbr(n) => int_text(n as int),
        ValueModel::Yarn(y) => y,
        ValueModel::Troof(t) => if t {
            "WIN"@
        } else {
            "FAIL"@
        },
        ValueModel::Noob => "NOOB"@,
    }
}

/// BOTH SAEM: numbers of either kind are equal when they are the same number, YARNs
/// and TROOFs when they are the same; nothing else is equal (NOOB included).
pub open spec fn values_equal(a: ValueModel, b: ValueModel) -> bool {
    match (a, b) {
        (ValueModel::Numbar(x), ValueModel::Numbar(y)) => same_value(x, y),
        (ValueModel::Numbr(x), ValueModel::Numbr(y)) => x == y,
        (ValueModel::Numbar(x), ValueModel::Numbr(y)) => same_value(x, (y as int, 0int)),
        (ValueModel::Numbr(x), ValueModel::Numbar(y)) => same_value((x as int, 0int), y),
        (ValueModel::Yarn(x), ValueModel::Yarn(y)) => x == y,
        (ValueModel::Troof(x), ValueModel::Troof(y)) => x == y,
        _ => false,
    }
}

/// Equality of values of the same type only (and NOOB equals NOOB).
pub open spec fn values_strictly_equal(a: ValueModel, b: ValueModel) -> bool {
    match (a, b) {
        (ValueModel::Numbar(x), ValueModel::Numbar(y)) => same_value(x, y),
        (ValueModel::Numbr(x), ValueModel::Numbr(y)) => x == y,
        (ValueModel::Yarn(x), ValueModel::Yarn(y)) => x == y,
        (ValueModel::Troof(x), ValueModel::Troof(y)) => x == y,
        (ValueModel::Noob, ValueModel::Noob) => true,
        _ => false,
    }
}

/// The value a single literal token stands for.
pub open spec fn parse_value(ts: Seq<TokenModel>) -> Result<(ValueModel, int), AppErrorModel> {
    if ts.len() == 0 {
        Err(AppErrorModel::MissingValue(ts))
    } else {
        match ts[0] {
            TokenModel::Yarn(y) => Ok((ValueModel::Yarn(y), 1)),
            TokenModel::Numbar(n) => Ok((ValueModel::Numbar(n), 1)),
            TokenModel::Numbr(n) => Ok((ValueModel::Numbr(n), 1)),
            TokenModel::Troof(t) => Ok((ValueModel::Troof(t), 1)),
            _ => Err(AppErrorModel::TokenCannotBeValue(ts[0])),
        }
    }
}

impl Value {
    pub fn copy(&self) -> (r: Value)
        ensures
            r@ == self@,
    {
        match self {
            Value::Numbar(n) => Value::Numbar(n.copy()),
            Value::Numbr(n) => Value::Numbr(n.copy()),
            Value::Yarn(y) => Value::Yarn(y.copy()),
            Value::Troof(t) => Value::Troof(t.copy()),
            Value::Noob => Value::Noob,
        }
    }

    /// Reads a value from a literal token at the start of the tokens.
    pub fn parse(tokens: &[Token]) -> (r: Result<(Value, usize), AppError>)
        ensures
            r matches Ok((v, c)) ==> parse_value(token_views(tokens@)) == Ok::<(ValueModel, int), AppErrorModel>((v@, c as int)),
            r matches Err(e) ==> parse_value(token_views(tokens@)) == Err::<(ValueModel, int), AppErrorModel>(e@),
    {
        if tokens.len() == 0 {
            return Err(AppError::MissingValue(crate::lexer::Tokens::of(tokens)));
        }
        match &tokens[0] {
            Token::Yarn(yarn) => Ok((Value::Yarn(yarn.copy()), 1)),
            Token::Numbar(numbar) => Ok((Value::Numbar(numbar.copy()), 1)),
            Token::Numbr(numbr) => Ok((Value::Numbr(numbr.copy()), 1)),
            Token::Troof(troof) => Ok((Value::Troof(troof.copy()), 1)),
            value => Err(AppError::TokenCannotBeValue(value.copy())),
        }
    }

    /// The number the value stands for (see `value_as_number`).
    pub fn as_number(&self) -> (r: Result<Number, AppError>)
        ensures
            r matches Ok(n) ==> value_as_number(self@) == Ok::<NumberModel, AppErrorModel>(n@),
            r matches Err(e) ==> value_as_number(self@) == Err::<NumberModel, AppErrorModel>(e@),
            r matches Ok(Number::Decimal(d)) ==> rescalable_to_zero(d@),
    {
        match self {
            Value::Numbr(n) => Ok(Number::from_numbr(n)),
            Value::Numbar(n) => {
                proof {
                    use_type_invariant(n);
                }
                Ok(Number::from_numbar(n))
            },
            Value::Yarn(y) => {
                let whole = Numbr::try_from_yarn(y.copy());
                if let Ok(whole) = whole {
                    return Ok(Number::from_numbr(&whole));
                }
                let dec = Numbar::try_from_yarn(y.copy());
                match dec {
                    Ok(dec) => {
                        proof {
                            use_type_invariant(&dec);
                        }
                        return Ok(Number::from_numbar(&dec));
                    },
                    Err(AppError::NumberOverflow) => return Err(AppError::NumberOverflow),
                    Err(_) => {},
                }
                Err(AppError::YarnIsNotANumber(y.copy()))
            },
            Value::Troof(t) => if t.value() {
                Ok(Number::Int(1))
            } else {
                Ok(Number::Int(0))
            },
            Value::Noob => Err(AppError::CannotPerformMathsOnNoob),
        }
    }

    /// The truth of the value (see `value_as_troof`).
    pub fn as_troof(&self) -> (r: Troof)
        ensures
            r@ == value_as_troof(self@),
    {
        match self {
            Value::Numbar(numbar) => Troof::from_numbar(numbar.copy()),
            Value::Numbr(numbr) => Troof::from_numbr(numbr.copy()),
            Value::Yarn(yarn) => Troof::from_yarn(yarn.copy()),
            Value::Troof(troof) => troof.copy(),
            Value::Noob => Troof::new(false),
        }
    }

    /// The value as text for VISIBLE (see `value_as_yarn`).
    pub fn as_yarn(&self) -> (r: Result<Yarn, AppError>)
        ensures
            r matches Ok(y) ==> value_as_yarn(self@) == Ok::<Seq<char>, AppErrorModel>(y@),
            r matches Err(e) ==> value_as_yarn(self@) == Err::<Seq<char>, AppErrorModel>(e@),
    {
        match self {
            Value::Numbar(numbar) => {
                let t = numbar.text();
                Ok(Yarn::from_chars(t.as_slice()))
            },
            Value::Numbr(numbr) => {
                let t = numbr.text();
                Ok(Yarn::from_chars(t.as_slice()))
            },
            Value::Yarn(yarn) => Ok(yarn.copy()),
            Value::Troof(_) => Err(AppError::CannotVisibleATroof),
            Value::Noob => Err(AppError::CannotVisibleANoob),
        }
    }

    /// How the value is written (its `Display`).
    pub fn text(&self) -> (r: Vec<char>)
        ensures
            r@ == value_text(self@),
    {
        match self {
            Value::Numbar(n) => n.text(),
            Value::Numbr(n) => n.text(),
            Value::Yarn(s) => s.to_chars(),
            Value::Troof(b) => chars_of(b.text()),
            Value::Noob => chars_of("NOOB"),
        }
    }

    /// BOTH SAEM (see `values_equal`).
    pub fn equals(&self, other: &Value) -> (r: bool)
        ensures
            r == values_equal(self@, other@),
    {
        match (self, other) {
            (Value::Numbar(x), Value::Numbar(y)) => x.equals(y),
            (Value::Numbr(x), Value::Numbr(y)) => x.value() == y.value(),
            (Value::Numbar(x), Value::Numbr(y)) => x.equals_numbr(y),
            (Value::Numbr(x), Value::Numbar(y)) => {
                let a = Decimal::from_i64(x.value());
                a.equals(y.value())
            },
            (Value::Yarn(x), Value::Yarn(y)) => x.as_str().to_owned() == y.as_str().to_owned(),
            (Value::Troof(x), Value::Troof(y)) => x.value() == y.value(),
            _ => false,
        }
    }

    /// Equality of values of the same type (see `values_strictly_equal`).
    pub fn strict_eq(&self, other: &Self) -> (r: bool)
        ensures
            r == values_strictly_equal(self@, other@),
    {
        match (self, other) {
            (Value::Numbar(x), Value::Numbar(y)) => x.equals(y),
            (Value::Numbr(x), Value::Numbr(y)) => x.value() == y.value(),
            (Value::Yarn(x), Value::Yarn(y)) => x.as_str().to_owned() == y.as_str().to_owned(),
            (Value::Troof(x), Value::Troof(y)) => x.value() == y.value(),
            (Value::Noob, Value::Noob) => true,
            _ => false,
        }
    }
}

/// The value a number becomes.
pub open spec fn number_value(n: NumberModel) -> ValueModel {
    match n {
        NumberModel::Int(i) => ValueModel::Numbr(i),
        NumberModel::Decimal(d) => ValueModel::Numbar(d),
    }
}

impl Number {
    /// A NUMBR for an integer, a NUMBAR for a decimal (one that can be brought to
    /// scale 0, as every NUMBAR can).
    pub fn into_value(self) -> (r: Value)
        requires
            self@ matches NumberModel::Decimal(d) ==> rescalable_to_zero(d),
        ensures
            r@ == number_value(self@),
    {
        match self {
            Number::Int(i) => Value::Numbr(Numbr::new(i)),
            Number::Decimal(f) => Value::Numbar(Numbar::new(f)),
        }
    }
}

/// BOTH SAEM is `values_equal`, DIFFRINT its negation.
pub open spec fn comparison_result(op: ComparisonOp, a: ValueModel, b: ValueModel) -> ValueModel {
    ValueModel::Troof(
        match op {
            ComparisonOp::BothSaem => values_equal(a, b),
            ComparisonOp::Diffrint => !values_equal(a, b),
        },
    )
}

/// Evaluates a comparison of two values; it always succeeds.
pub fn eval_comparison_expr(op: &ComparisonExpr, left: Value, right: Value) -> (r: Result<Value, AppError>)
    ensures
        r matches Ok(v) && v@ == comparison_result(op.op, left@, right@),
{
    let comp = match op.op {
        ComparisonOp::BothSaem => left.equals(&right),
        ComparisonOp::Diffrint => !left.equals(&right),
    };
    Ok(Value::Troof(Troof::new(comp)))
}

/// An arithmetic operator on two NUMBRs: overflow is an error, and so is a MOD by
/// zero.
pub open spec fn int_op(op: MathOp, a: i64, b: i64) -> Result<i64, AppErrorModel> {
    match op {
        MathOp::Sum => match a.checked_add(b) {
            Some(v) => Ok(v),
            None => Err(AppErrorModel::NumberOverflow),
        },
        MathOp::Diff => match a.checked_sub(b) {
            Some(v) => Ok(v),
            None => Err(AppErrorModel::NumberOverflow),
        },
        MathOp::Produkt => match a.checked_mul(b) {
            Some(v) => Ok(v),
            None => Err(AppErrorModel::NumberOverflow),
        },
        MathOp::Mod => if b == 0 {
            Err(AppErrorModel::DivisionByZero)
        } else {
            match a.checked_rem(b) {
                Some(v) => Ok(v),
                None => Err(AppErrorModel::NumberOverflow),
            }
        },
        MathOp::Biggr => Ok(if a > b {
            a
        } else {
            b
        }),
        MathOp::Smallr => Ok(if a <= b {
            a
        } else {
            b
        }),
        MathOp::Quoshunt => Err(AppErrorModel::DivisionByZero),
    }
}

/// An arithmetic operator on two decimals, as `bigdecimal` computes it. A MOD by
/// zero is an error; so are operands whose scales cannot be aligned (a sum, a
/// difference of two nonzero numbers, a MOD) and a product whose scale overflows.
pub open spec fn decimal_op(op: MathOp, a: (int, int), b: (int, int)) -> Result<(int, int), AppErrorModel> {
    match op {
        MathOp::Sum => if aligns(a, b) {
            Ok(decimal_sum(a, b))
        } else {
            Err(AppErrorModel::NumberOverflow)
        },
        MathOp::Diff => if a.0 == 0 || b.0 == 0 || aligns(a, b) {
            Ok(decimal_difference(a, b))
        } else {
            Err(AppErrorModel::NumberOverflow)
        },
        MathOp::Produkt => if i64::MIN <= a.1 + b.1 <= i64::MAX {
            Ok(decimal_product(a, b))
        } else {
            Err(AppErrorModel::NumberOverflow)
        },
        MathOp::Mod => if b.0 == 0 {
            Err(AppErrorModel::DivisionByZero)
        } else if !aligns(a, b) {
            Err(AppErrorModel::NumberOverflow)
        } else {
            Ok(decimal_remainder(a, b))
        },
        MathOp::Biggr => Ok(decimal_max(a, b)),
        MathOp::Smallr => Ok(decimal_min(a, b)),
        MathOp::Quoshunt => quotient_of(a, b),
    }
}

/// A quotient, as `bigdecimal` computes it; dividing by zero is an error, and so is
/// a quotient whose scale could leave the range of an `i64`.
pub open spec fn quotient_of(a: (int, int), b: (int, int)) -> Result<(int, int), AppErrorModel> {
    if b.0 == 0 {
        Err(AppErrorModel::DivisionByZero)
    } else if !quotient_scale_fits(a, b) {
        Err(AppErrorModel::NumberOverflow)
    } else {
        Ok(decimal_quotient(a, b))
    }
}

/// A number as a decimal (`BigDecimal::from` for an integer).
pub open spec fn number_decimal(n: NumberModel) -> (int, int) {
    match n {
        NumberModel::Int(i) => (i as int, 0int),
        NumberModel::Decimal(d) => d,
    }
}

/// Whether a number is zero.
pub open spec fn number_is_zero(n: NumberModel) -> bool {
    match n {
        NumberModel::Int(i) => i == 0,
        NumberModel::Decimal(d) => d.0 == 0,
    }
}

/// A decimal result as a NUMBAR: one that `bigdecimal` could not bring to scale 0
/// (to print it or make it a NUMBR) is a number overflow.
pub open spec fn numbar_result(d: (int, int)) -> Result<ValueModel, AppErrorModel> {
    if rescalable_to_zero(d) {
        Ok(ValueModel::Numbar(d))
    } else {
        Err(AppErrorModel::NumberOverflow)
    }
}

/// An arithmetic operator on two numbers: on two NUMBRs it gives a NUMBR
/// (`int_op`), otherwise the NUMBR is made a decimal and the result is a NUMBAR
/// (`decimal_op`). QUOSHUNT always gives a NUMBAR.
pub open spec fn numbers_op(op: MathOp, l: NumberModel, r: NumberModel) -> Result<ValueModel, AppErrorModel> {
    if op == MathOp::Quoshunt {
        if number_is_zero(r) {
            Err(AppErrorModel::DivisionByZero)
        } else {
            match quotient_of(number_decimal(l), number_decimal(r)) {
                Ok(d) => numbar_result(d),
                Err(e) => Err(e),
            }
        }
    } else {
        match (l, r) {
            (NumberModel::Int(a), NumberModel::Int(b)) => match int_op(op, a, b) {
                Ok(v) => Ok(ValueModel::Numbr(v)),
                Err(e) => Err(e),
            },
            _ => match decimal_op(op, number_decimal(l), number_decimal(r)) {
                Ok(d) => numbar_result(d),
                Err(e) => Err(e),
            },
        }
    }
}

/// An arithmetic expression on two values: both are read as numbers (left first),
/// then `numbers_op`.
pub open spec fn maths_result(op: MathOp, a: ValueModel, b: ValueModel) -> Result<ValueModel, AppErrorModel> {
    match value_as_number(a) {
        Err(e) => Err(e),
        Ok(l) => match value_as_number(b) {
            Err(e) => Err(e),
            Ok(r) => numbers_op(op, l, r),
        },
    }
}

fn number_to_decimal(n: &Number) -> (r: Decimal)
    ensures
        r@ == number_decimal(n@),
{
    match n {
        Number::Int(i) => Decimal::from_i64(*i),
        Number::Decimal(d) => d.copy(),
    }
}

fn check_zero(n: &Number) -> (r: bool)
    ensures
        r == number_is_zero(n@),
{
    match n {
        Number::Int(i) => *i == 0,
        Number::Decimal(f) => f.is_zero(),
    }
}

fn decimal_quotient_checked(a: &Decimal, b: &Decimal) -> (r: Result<Decimal, AppError>)
    ensures
        r matches Ok(d) ==> quotient_of(a@, b@) == Ok::<(int, int), AppErrorModel>(d@),
        r matches Err(e) ==> quotient_of(a@, b@) == Err::<(int, int), AppErrorModel>(e@),
{
    if b.is_zero() {
        return Err(AppError::DivisionByZero);
    }
    let sa = a.scale() as i128;
    let sb = b.scale() as i128;
    let digits = b.digit_count() as i128;
    if sa - sb < i64::MIN as i128
        || sa - sb + digits + DIVISION_PRECISION_BOUND as i128 > i64::MAX as i128 {
        return Err(AppError::NumberOverflow);
    }
    Ok(a.div(b))
}

/// Whether `bigdecimal` can bring the decimal `d` up to the scale `k`.
fn rescales_to_scale(d: &Decimal, k: i64) -> (r: bool)
    ensures
        r == rescales_to(d@, k as int),
{
    d.is_zero() || (k as i128) - (d.scale() as i128) <= i64::MAX as i128
}

/// Whether the scales of two decimals can be aligned (see `aligns`).
fn decimals_align(a: &Decimal, b: &Decimal) -> (r: bool)
    ensures
        r == aligns(a@, b@),
{
    let k = if a.scale() >= b.scale() {
        a.scale()
    } else {
        b.scale()
    };
    rescales_to_scale(a, k) && rescales_to_scale(b, k)
}

/// A decimal result as a NUMBAR (see `numbar_result`).
fn numbar_value(d: Decimal) -> (r: Result<Value, AppError>)
    ensures
        r matches Ok(v) ==> numbar_result(d@) == Ok::<ValueModel, AppErrorModel>(v@),
        r matches Err(e) ==> numbar_result(d@) == Err::<ValueModel, AppErrorModel>(e@),
{
    if !d.is_zero() && d.scale() == i64::MIN {
        return Err(AppError::NumberOverflow);
    }
    Ok(Value::Numbar(Numbar::new(d)))
}

fn apply_decimal_op(op: MathOp, a: &Decimal, b: &Decimal) -> (r: Result<Decimal, AppError>)
    ensures
        r matches Ok(d) ==> decimal_op(op, a@, b@) == Ok::<(int, int), AppErrorModel>(d@),
        r matches Err(e) ==> decimal_op(op, a@, b@) == Err::<(int, int), AppErrorModel>(e@),
{
    match op {
        MathOp::Sum => {
            if !decimals_align(a, b) {
                return Err(AppError::NumberOverflow);
            }
            Ok(a.add(b))
        },
        MathOp::Diff => {
            if !a.is_zero() && !b.is_zero() && !decimals_align(a, b) {
                return Err(AppError::NumberOverflow);
            }
            Ok(a.sub(b))
        },
        MathOp::Produkt => {
            let sa = a.scale();
            let sb = b.scale();
            if (sb > 0 && sa > i64::MAX - sb) || (sb < 0 && sa < i64::MIN - sb) {
                return Err(AppError::NumberOverflow);
            }
            Ok(a.mul(b))
        },
        MathOp::Mod => {
            if b.is_zero() {
                return Err(AppError::DivisionByZero);
            }
            if !decimals_align(a, b) {
                return Err(AppError::NumberOverflow);
            }
            Ok(a.rem(b))
        },
        MathOp::Biggr => Ok(a.max(b)),
        MathOp::Smallr => Ok(a.min(b)),
        MathOp::Quoshunt => decimal_quotient_checked(a, b),
    }
}

fn apply_int_op(op: MathOp, a: i64, b: i64) -> (r: Result<i64, AppError>)
    ensures
        r matches Ok(v) ==> int_op(op, a, b) == Ok::<i64, AppErrorModel>(v),
        r matches Err(e) ==> int_op(op, a, b) == Err::<i64, AppErrorModel>(e@),
{
    let res = match op {
        MathOp::Sum => a.checked_add(b),
        MathOp::Diff => a.checked_sub(b),
        MathOp::Produkt => a.checked_mul(b),
        MathOp::Mod => {
            if b == 0 {
                return Err(AppError::DivisionByZero);
            }
            a.checked_rem(b)
        },
        MathOp::Biggr => Some(if a > b {
            a
        } else {
            b
        }),
        MathOp::Smallr => Some(if a <= b {
            a
        } else {
            b
        }),
        MathOp::Quoshunt => {
            return Err(AppError::DivisionByZero);
        },
    };
    match res {
        Some(v) => Ok(v),
        None => Err(AppError::NumberOverflow),
    }
}

fn apply_numeric_op(op: MathOp, l: Number, r: Number) -> (res: Result<Value, AppError>)
    ensures
        res matches Ok(v) ==> numbers_op(op, l@, r@) == Ok::<ValueModel, AppErrorModel>(v@),
        res matches Err(e) ==> numbers_op(op, l@, r@) == Err::<ValueModel, AppErrorModel>(e@),
{
    if op == MathOp::Quoshunt {
        if check_zero(&r) {
            return Err(AppError::DivisionByZero);
        }
        let a = number_to_decimal(&l);
        let b = number_to_decimal(&r);
        let q = decimal_quotient_checked(&a, &b)?;
        return numbar_value(q);
    }
    match (&l, &r) {
        (Number::Int(a), Number::Int(b)) => {
            let v = apply_int_op(op, *a, *b)?;
            Ok(Number::Int(v).into_value())
        },
        _ => {
            let a = number_to_decimal(&l);
            let b = number_to_decimal(&r);
            let d = apply_decimal_op(op, &a, &b)?;
            numbar_value(d)
        },
    }
}

/// Evaluates an arithmetic expression on two values (see `maths_result`).
pub fn eval_maths_expr(op: &MathsExpr, left: Value, right: Value) -> (r: Result<Value, AppError>)
    ensures
        r matches Ok(v) ==> maths_result(op.op, left@, right@) == Ok::<ValueModel, AppErrorModel>(v@),
        r matches Err(e) ==> maths_result(op.op, left@, right@) == Err::<ValueModel, AppErrorModel>(e@),
{
    let l = left.as_number()?;
    let r = right.as_number()?;
    apply_numeric_op(op.op, l, r)
}

/// Whether every value is true.
pub open spec fn all_true(vs: Seq<ValueModel>) -> bool {
    forall|i: int| 0 <= i < vs.len() ==> value_as_troof(#[trigger] vs[i])
}

/// Whether some value is true.
pub open spec fn any_true(vs: Seq<ValueModel>) -> bool {
    exists|i: int| 0 <= i < vs.len() && value_as_troof(#[trigger] vs[i])
}

/// How many values are true.
pub open spec fn count_true(vs: Seq<ValueModel>) -> nat
    decreases vs.len(),
{
    if vs.len() == 0 {
        0
    } else {
        count_true(vs.drop_last()) + if value_as_troof(vs.last()) {
            1nat
        } else {
            0nat
        }
    }
}

/// A boolean operator on values: BOTH, EITHER and WON take two, NOT one, ALL and ANY
/// at least one; BOTH and ALL are true when every value is, EITHER and ANY when some
/// value is, WON when exactly one is, NOT when not every value is.
pub open spec fn bool_result(op: BoolOp, vs: Seq<ValueModel>) -> Result<ValueModel, AppErrorModel> {
    let arity_ok = match op {
        BoolOp::Both | BoolOp::Either | BoolOp::Won => vs.len() == 2,
        BoolOp::Not => vs.len() == 1,
        BoolOp::All | BoolOp::Any => vs.len() != 0,
    };
    if !arity_ok {
        Err(AppErrorModel::TroofExpressionHasInvalidNumberOfArguments)
    } else {
        Ok(ValueModel::Troof(
            match op {
                BoolOp::Both | BoolOp::All => all_true(vs),
                BoolOp::Either | BoolOp::Any => any_true(vs),
                BoolOp::Won => count_true(vs) == 1,
                BoolOp::Not => !all_true(vs),
            },
        ))
    }
}

/// The views of a vector of values.
pub open spec fn value_views(vs: Seq<Value>) -> Seq<ValueModel> {
    vs.map_values(|v: Value| v@)
}

/// Evaluates a boolean operator on values (see `bool_result`).
pub fn eval_bool_expr(op: &BoolOp, exprs: Vec<Value>) -> (r: Result<Value, AppError>)
    ensures
        r matches Ok(v) ==> bool_result(*op, value_views(exprs@)) == Ok::<ValueModel, AppErrorModel>(v@),
        r matches Err(e) ==> bool_result(*op, value_views(exprs@)) == Err::<ValueModel, AppErrorModel>(e@),
{
    let ghost vs = value_views(exprs@);
    let expr_count = exprs.len();
    match op {
        BoolOp::Both | BoolOp::Either | BoolOp::Won => {
            if expr_count != 2 {
                return Err(AppError::TroofExpressionHasInvalidNumberOfArguments);
            }
        },
        BoolOp::Not => {
            if expr_count != 1 {
                return Err(AppError::TroofExpressionHasInvalidNumberOfArguments);
            }
        },
        BoolOp::All | BoolOp::Any => {
            if expr_count == 0 {
                return Err(AppError::TroofExpressionHasInvalidNumberOfArguments);
            }
        },
    }
    let mut all = true;
    let mut any = false;
    let mut how_many: usize = 0;
    let mut i: usize = 0;
    while i < expr_count
        invariant
            expr_count == exprs@.len(),
            vs == value_views(exprs@),
            i <= expr_count,
            all == all_true(vs.take(i as int)),
            any == any_true(vs.take(i as int)),
            how_many == count_true(vs.take(i as int)),
            how_many <= i,
        decreases expr_count - i,
    {
        let t = exprs[i].as_troof().value();
        let ghost pre = vs.take(i as int);
        let ghost next = vs.take(i + 1);
        assert(next.drop_last() =~= pre);
        assert(next.last() == exprs@[i as int]@);
        if t {
            how_many = how_many + 1;
            any = true;
            assert(any_true(next)) by {
                assert(value_as_troof(next[i as int]));
            }
        } else {
            all = false;
            assert(!all_true(next)) by {
                assert(!value_as_troof(next[i as int]));
            }
        }
        assert(all == all_true(next)) by {
            if all {
                assert forall|k: int| 0 <= k < next.len() implies value_as_troof(#[trigger] next[k]) by {
                    if k < i {
                        assert(next[k] == pre[k]);
                    }
                }
            }
        }
        assert(any == any_true(next)) by {
            if !any {
                assert forall|k: int| 0 <= k < next.len() implies !value_as_troof(#[trigger] next[k]) by {
                    if k < i {
                        assert(next[k] == pre[k]);
                    }
                }
            }
        }
        i = i + 1;
    }
    assert(vs.take(expr_count as int) =~= vs);
    let res = match op {
        BoolOp::Both | BoolOp::All => all,
        BoolOp::Either | BoolOp::Any => any,
        BoolOp::Won => how_many == 1,
        BoolOp::Not => !all,
    };
    Ok(Value::Troof(Troof::new(res)))
}


/// BOTH SAEM is symmetric.
pub proof fn law_both_saem_symmetric(a: ValueModel, b: ValueModel)
    ensures
        values_equal(a, b) == values_equal(b, a),
{
}

/// Every value but NOOB is BOTH SAEM as itself; NOOB is not BOTH SAEM as anything,
/// itself included.
pub proof fn law_both_saem_reflexive(v: ValueModel)
    ensures
        values_equal(v, v) == !(v is Noob),
        values_equal(ValueModel::Noob, v) == false,
{
}

/// BOTH OF two values is true when both are true.
pub proof fn law_both_of_is_and(a: ValueModel, b: ValueModel)
    ensures
        bool_result(BoolOp::Both, seq![a, b]) == Ok::<ValueModel, AppErrorModel>(ValueModel::Troof(value_as_troof(a) && value_as_troof(b))),
{
    let vs = seq![a, b];
    if value_as_troof(a) && value_as_troof(b) {
        assert forall|i: int| 0 <= i < vs.len() implies value_as_troof(#[trigger] vs[i]) by {
            if i == 0 {
                assert(vs[0] == a);
            } else {
                assert(vs[1] == b);
            }
        }
    } else if !value_as_troof(a) {
        assert(!value_as_troof(vs[0]));
    } else {
        assert(!value_as_troof(vs[1]));
    }
}

/// EITHER OF two values is true when one of them is.
pub proof fn law_either_of_is_or(a: ValueModel, b: ValueModel)
    ensures
        bool_result(BoolOp::Either, seq![a, b]) == Ok::<ValueModel, AppErrorModel>(ValueModel::Troof(value_as_troof(a) || value_as_troof(b))),
{
    let vs = seq![a, b];
    if value_as_troof(a) {
        assert(value_as_troof(vs[0]));
    } else if value_as_troof(b) {
        assert(value_as_troof(vs[1]));
    } else {
        assert forall|i: int| 0 <= i < vs.len() implies !value_as_troof(#[trigger] vs[i]) by {
            if i == 0 {
                assert(vs[0] == a);
            } else {
                assert(vs[1] == b);
            }
        }
    }
}

/// WON OF two values is true when exactly one of them is.
pub proof fn law_won_of_is_exclusive_or(a: ValueModel, b: ValueModel)
    ensures
        bool_result(BoolOp::Won, seq![a, b]) == Ok::<ValueModel, AppErrorModel>(ValueModel::Troof(value_as_troof(a) != value_as_troof(b))),
{
    let vs = seq![a, b];
    let one = seq![a];
    assert(vs.drop_last() =~= one);
    assert(one.drop_last() =~= Seq::<ValueModel>::empty());
    assert(count_true(Seq::<ValueModel>::empty()) == 0);
    assert(one.last() == a);
    assert(vs.last() == b);
    assert(count_true(one) == if value_as_troof(a) {
        1nat
    } else {
        0nat
    });
}


/// ANY OF is true when at least one of its values is, ALL OF when every one is.
pub proof fn law_any_and_all_of(vs: Seq<ValueModel>)
    requires
        vs.len() > 0,
    ensures
        bool_result(BoolOp::Any, vs) == Ok::<ValueModel, AppErrorModel>(
            ValueModel::Troof(exists|i: int| 0 <= i < vs.len() && value_as_troof(#[trigger] vs[i])),
        ),
        bool_result(BoolOp::All, vs) == Ok::<ValueModel, AppErrorModel>(
            ValueModel::Troof(forall|i: int| 0 <= i < vs.len() ==> value_as_troof(#[trigger] vs[i])),
        ),
{
}

/// Values of different kinds are never the same (a NUMBR and a NUMBAR are both
/// numbers): BOTH SAEM of, say, a TROOF and a NUMBR or a YARN and a number is FAIL, and
/// DIFFRINT is WIN. NOOB is the same as nothing, not even NOOB.
pub proof fn law_different_kinds_never_same(a: ValueModel, b: ValueModel)
    requires
        !(a is Troof && b is Troof),
        !(a is Yarn && b is Yarn),
        !((a is Numbr || a is Numbar) && (b is Numbr || b is Numbar)),
    ensures
        comparison_result(ComparisonOp::BothSaem, a, b) == ValueModel::Troof(false),
        comparison_result(ComparisonOp::Diffrint, a, b) == ValueModel::Troof(true),
{
}

/// Values of one kind are the same exactly when they are equal: TROOFs, NUMBRs and
/// YARNs by their values and texts, and numbers of either kind by the number they
/// denote.
pub proof fn law_same_kind_compared_by_value(x: bool, y: bool, i: i64, j: i64, s: Seq<char>, t: Seq<char>, d: (int, int))
    ensures
        comparison_result(ComparisonOp::BothSaem, ValueModel::Troof(x), ValueModel::Troof(y)) == ValueModel::Troof(x == y),
        comparison_result(ComparisonOp::BothSaem, ValueModel::Numbr(i), ValueModel::Numbr(j)) == ValueModel::Troof(i == j),
        comparison_result(ComparisonOp::BothSaem, ValueModel::Yarn(s), ValueModel::Yarn(t)) == ValueModel::Troof(s == t),
        comparison_result(ComparisonOp::BothSaem, ValueModel::Numbr(i), ValueModel::Numbar(d))
            == ValueModel::Troof(same_value((i as int, 0int), d)),
        comparison_result(ComparisonOp::BothSaem, ValueModel::Numbar(d), ValueModel::Numbr(i))
            == ValueModel::Troof(same_value(d, (i as int, 0int))),
{
}

/// Arithmetic on two NUMBRs is integer arithmetic: SUM, DIFF and PRODUKT give the
/// exact result when it fits in a NUMBR and a number overflow otherwise; BIGGR and
/// SMALLR give the larger and the smaller operand; MOD gives the remainder with the
/// sign of the dividend (an error for a zero divisor, and an overflow for the one
/// remainder whose quotient does not fit).
#[verifier::spinoff_prover]
pub proof fn law_numbr_arithmetic(a: i64, b: i64)
    ensures
        maths_result(MathOp::Sum, ValueModel::Numbr(a), ValueModel::Numbr(b)) == if i64::MIN <= a + b <= i64::MAX {
            Ok::<ValueModel, AppErrorModel>(ValueModel::Numbr((a + b) as i64))
        } else {
            Err(AppErrorModel::NumberOverflow)
        },
        maths_result(MathOp::Diff, ValueModel::Numbr(a), ValueModel::Numbr(b)) == if i64::MIN <= a - b <= i64::MAX {
            Ok::<ValueModel, AppErrorModel>(ValueModel::Numbr((a - b) as i64))
        } else {
            Err(AppErrorModel::NumberOverflow)
        },
        maths_result(MathOp::Produkt, ValueModel::Numbr(a), ValueModel::Numbr(b)) == if i64::MIN <= a * b <= i64::MAX {
            Ok::<ValueModel, AppErrorModel>(ValueModel::Numbr((a * b) as i64))
        } else {
            Err(AppErrorModel::NumberOverflow)
        },
        maths_result(MathOp::Biggr, ValueModel::Numbr(a), ValueModel::Numbr(b))
            == Ok::<ValueModel, AppErrorModel>(ValueModel::Numbr(if a >= b { a } else { b })),
        maths_result(MathOp::Smallr, ValueModel::Numbr(a), ValueModel::Numbr(b))
            == Ok::<ValueModel, AppErrorModel>(ValueModel::Numbr(if a <= b { a } else { b })),
        maths_result(MathOp::Mod, ValueModel::Numbr(a), ValueModel::Numbr(0)) == Err::<ValueModel, AppErrorModel>(AppErrorModel::DivisionByZero),
        b != 0 && !(a == i64::MIN && b == -1) ==> maths_result(MathOp::Mod, ValueModel::Numbr(a), ValueModel::Numbr(b))
            == Ok::<ValueModel, AppErrorModel>(ValueModel::Numbr(rem_trunc(a as int, b as int) as i64)),
        maths_result(MathOp::Mod, ValueModel::Numbr(i64::MIN), ValueModel::Numbr(-1i64)) == Err::<ValueModel, AppErrorModel>(AppErrorModel::NumberOverflow),
{
    if b != 0 && !(a == i64::MIN && b == -1) {
        lemma_numbr_mod(a, b);
    }
}

#[verifier::spinoff_prover]
proof fn lemma_numbr_mod(a: i64, b: i64)
    requires
        b != 0,
        !(a == i64::MIN && b == -1),
    ensures
        int_op(MathOp::Mod, a, b) == Ok::<i64, AppErrorModel>(rem_trunc(a as int, b as int) as i64),
{
    let x = a as int;
    let d = b as int;
    let m = if d < 0 { -d } else { d };
    assert(m > 0);
    let r = rem_trunc(x, d);
    if x >= 0 {
        assert(0 <= x % m < m) by (nonlinear_arith)
            requires
                m > 0,
        ;
        if x == 0 {
            assert(0int % m == 0) by (nonlinear_arith)
                requires
                    m > 0,
            ;
        }
    } else {
        assert(0 <= (-x) % m < m) by (nonlinear_arith)
            requires
                m > 0,
        ;
        assert(x * -1 == -x);
    }
    if d < 0 {
        assert(d * -1 == -d);
    }
    assert(i64::MIN <= r <= i64::MAX);
    assert(a.checked_rem(b) == Some(r as i64));
}

} // verus!
