//! The primitive value types: NUMBR (integers), NUMBAR (decimals), YARN (text) and
//! TROOF (booleans), and `Number`, which holds either kind of number.

use vstd::prelude::*;
use crate::app_error::AppError;
use crate::decimal::{Decimal, decimal_parse, decimal_product, decimal_quotient, decimal_text_2, div_trunc, magnitude, num_digits, pow10, rescalable_to_zero, lemma_product_rescalable};
use crate::text::{chars_of, i64_text, int_text, parse_i64, parse_i64_chars, string_of};

verus! {

broadcast use vstd::string::group_string_axioms;

/// The number a NUMBAR's value is, at scale 0, with its fraction dropped (what
/// `BigDecimal::with_scale(0)` computes).
pub open spec fn scale_zero(d: (int, int)) -> (int, int) {
    (if d.1 >= 0 {
        div_trunc(d.0, pow10(d.1))
    } else {
        d.0 * pow10(-d.1)
    }, 0int)
}

/// The value truncated to two decimal places, as `bigdecimal` computes
/// `(v * 100).with_scale(0) / 100`.
pub open spec fn truncated_2(d: (int, int)) -> (int, int) {
    decimal_quotient(scale_zero(decimal_product(d, (100int, 0int))), (100int, 0int))
}

/// How a NUMBAR is written: truncated to two decimal places, then printed with
/// exactly two decimal places.
pub open spec fn numbar_text(d: (int, int)) -> Seq<char> {
    decimal_text_2(truncated_2(d))
}

/// Either kind of number, for arithmetic.
#[derive(Debug)]
pub enum Number {
    Int(i64),
    Decimal(Decimal),
}

pub enum NumberModel {
    Int(i64),
    Decimal((int, int)),
}

impl View for Number {
    type V = NumberModel;

    open spec fn view(&self) -> NumberModel {
        match self {
            Number::Int(i) => NumberModel::Int(*i),
            Number::Decimal(d) => NumberModel::Decimal(d@),
        }
    }
}

impl Number {
    /// The number that a NUMBAR holds.
    pub fn from_numbar(value: &Numbar) -> (r: Number)
        ensures
            r@ == NumberModel::Decimal(value@),
    {
        Number::Decimal(value.value.copy())
    }

    /// The number that a NUMBR holds.
    pub fn from_numbr(value: &Numbr) -> (r: Number)
        ensures
            r@ == NumberModel::Int(value@),
    {
        Number::Int(value.value)
    }
}

/// A decimal number.
#[derive(Debug)]
pub struct Numbar {
    value: Decimal,
}

impl View for Numbar {
    type V = (int, int);

    closed spec fn view(&self) -> (int, int) {
        self.value@
    }
}

impl Numbar {
    /// A NUMBAR can be brought to scale 0 (to be printed or made a NUMBR): it is zero
    /// or its scale is not `i64::MIN`.
    #[verifier::type_invariant]
    pub open spec fn inv(self) -> bool {
        rescalable_to_zero(self@)
    }

    pub fn new(v: Decimal) -> (r: Numbar)
        requires
            rescalable_to_zero(v@),
        ensures
            r@ == v@,
    {
        Numbar { value: v }
    }

    /// Zero (the default NUMBAR).
    pub fn zero() -> (r: Numbar)
        ensures
            r@ == (0int, 0int),
    {
        Numbar { value: Decimal::zero() }
    }

    pub fn value(&self) -> (r: &Decimal)
        ensures
            r@ == self@,
    {
        &self.value
    }

    pub fn copy(&self) -> (r: Numbar)
        ensures
            r@ == self@,
    {
        proof {
            use_type_invariant(self);
        }
        Numbar { value: self.value.copy() }
    }

    /// The value truncated toward zero to two decimal places.
    fn truncated(&self) -> (r: Decimal)
        ensures
            r@ == truncated_2(self@),
    {
        let multiplier = Decimal::from_i64(100);
        proof {
            self.value.lemma_scale_bounds();
            use_type_invariant(self);
        }
        let product = self.value.mul(&multiplier);
        proof {
            lemma_product_rescalable(self.value@, multiplier@, product@);
        }
        let scaled = product.with_scale_zero();
        proof {
            assert(num_digits(1) == 1);
            assert(num_digits(10) == 2);
            assert(num_digits(100) == 3);
            assert(magnitude(100) == 100);
        }
        scaled.div(&multiplier)
    }

    /// How the NUMBAR is written (its `Display`).
    pub fn text(&self) -> (r: Vec<char>)
        ensures
            r@ == numbar_text(self@),
    {
        self.truncated().text_2()
    }

    /// Parses a YARN as a NUMBAR (`BigDecimal::from_str`); a number too large to be
    /// brought to scale 0 is a number overflow.
    pub fn try_from_yarn(value: Yarn) -> (r: Result<Numbar, AppError>)
        ensures
            r matches Ok(n) ==> decimal_parse(value@) == Some(n@),
            r matches Err(e) ==> (decimal_parse(value@) is None && e@ == crate::app_error::AppErrorModel::YarnIsNotANumbar(value@))
                || (decimal_parse(value@) matches Some(d) && !rescalable_to_zero(d)
                    && e@ == crate::app_error::AppErrorModel::NumberOverflow),
    {
        let chars = chars_of(value.value.as_str());
        match Decimal::parse(chars.as_slice()) {
            Some(d) => {
                if !d.is_zero() && d.scale() == i64::MIN {
                    return Err(AppError::NumberOverflow);
                }
                Ok(Numbar { value: d })
            },
            None => Err(AppError::YarnIsNotANumbar(value)),
        }
    }

    /// NUMBAR == NUMBAR: the same number.
    pub fn equals(&self, other: &Numbar) -> (r: bool)
        ensures
            r == crate::decimal::same_value(self@, other@),
    {
        self.value.equals(&other.value)
    }

    /// NUMBAR == NUMBR: the same number.
    pub fn equals_numbr(&self, other: &Numbr) -> (r: bool)
        ensures
            r == crate::decimal::same_value(self@, (other@ as int, 0int)),
    {
        self.value.equals_i64(other.value)
    }
}

/// An integer.
#[derive(Debug)]
pub struct Numbr {
    value: i64,
}

impl View for Numbr {
    type V = i64;

    closed spec fn view(&self) -> i64 {
        self.value
    }
}

impl Numbr {
    pub fn new(v: i64) -> (r: Numbr)
        ensures
            r@ == v,
    {
        Numbr { value: v }
    }

    pub fn value(&self) -> (r: i64)
        ensures
            r == self@,
    {
        self.value
    }

    pub fn copy(&self) -> (r: Numbr)
        ensures
            r@ == self@,
    {
        Numbr { value: self.value }
    }

    /// How the NUMBR is written (its `Display`).
    pub fn text(&self) -> (r: Vec<char>)
        ensures
            r@ == int_text(self@ as int),
    {
        i64_text(self.value)
    }

    /// Parses a YARN as a NUMBR (`i64::from_str`).
    pub fn try_from_yarn(value: Yarn) -> (r: Result<Numbr, AppError>)
        ensures
            r matches Ok(n) ==> parse_i64(value@) == Some(n@),
            r matches Err(e) ==> parse_i64(value@) is None && e@ == crate::app_error::AppErrorModel::YarnIsNotANumbr(value@),
    {
        let chars = chars_of(value.value.as_str());
        match parse_i64_chars(chars.as_slice()) {
            Some(n) => Ok(Numbr { value: n }),
            None => Err(AppError::YarnIsNotANumbr(value)),
        }
    }
}

/// A text value.
#[derive(Debug)]
pub struct Yarn {
    value: String,
}

impl View for Yarn {
    type V = Seq<char>;

    closed spec fn view(&self) -> Seq<char> {
        self.value@
    }
}

/// The character that `:c` stands for in a YARN literal, if `c` makes an escape.
pub open spec fn escape_of(c: char) -> Option<char> {
    if c == ')' {
        Some('\n')
    } else if c == '>' {
        Some('\t')
    } else if c == 'o' {
        Some('\x07')
    } else if c == '"' {
        Some('"')
    } else if c == ':' {
        Some(':')
    } else {
        None
    }
}

/// The text with its escapes (`:)`, `:>`, `:o`, `:"`, `::`) replaced; a `:` that
/// starts no escape stays as it is.
pub open spec fn unescape(s: Seq<char>) -> Seq<char>
    decreases s.len(),
{
    if s.len() == 0 {
        seq![]
    } else if s[0] == ':' && s.len() >= 2 && escape_of(s[1]) is Some {
        seq![escape_of(s[1])->0] + unescape(s.skip(2))
    } else {
        seq![s[0]] + unescape(s.skip(1))
    }
}

/// The body of a YARN literal: the text between the quotes when it is quoted.
pub open spec fn literal_body(v: Seq<char>) -> Seq<char> {
    if v.len() >= 2 && v[0] == '"' && v.last() == '"' {
        v.subrange(1, v.len() - 1)
    } else {
        v
    }
}

fn escape_char(c: char) -> (r: Option<char>)
    ensures
        r == escape_of(c),
{
    if c == ')' {
        Some('\n')
    } else if c == '>' {
        Some('\t')
    } else if c == 'o' {
        Some('\x07')
    } else if c == '"' {
        Some('"')
    } else if c == ':' {
        Some(':')
    } else {
        None
    }
}

impl Yarn {
    pub fn new(v: String) -> (r: Yarn)
        ensures
            r@ == v@,
    {
        Yarn { value: v }
    }

    /// The empty YARN (the default).
    pub fn empty() -> (r: Yarn)
        ensures
            r@ == Seq::<char>::empty(),
    {
        Yarn { value: String::new() }
    }

    pub fn from_chars(v: &[char]) -> (r: Yarn)
        ensures
            r@ == v@,
    {
        Yarn { value: string_of(v) }
    }

    pub fn as_str(&self) -> (r: &str)
        ensures
            r@ == self@,
    {
        self.value.as_str()
    }

    pub fn to_chars(&self) -> (r: Vec<char>)
        ensures
            r@ == self@,
    {
        chars_of(self.value.as_str())
    }

    pub fn copy(&self) -> (r: Yarn)
        ensures
            r@ == self@,
    {
        Yarn { value: self.value.clone() }
    }

    /// Builds a YARN from a literal: drops the surrounding quotes, then replaces the
    /// escapes.
    pub fn from_literal(v: String) -> (r: Yarn)
        ensures
            r@ == unescape(literal_body(v@)),
    {
        let all = chars_of(v.as_str());
        let n = all.len();
        let (lo, hi): (usize, usize) = if n >= 2 && all[0] == '"' && all[n - 1] == '"' {
            (1, n - 1)
        } else {
            (0, n)
        };
        let ghost body = all@.subrange(lo as int, hi as int);
        assert(body =~= literal_body(v@));
        let mut result: Vec<char> = Vec::new();
        let mut i: usize = lo;
        assert(all@.subrange(i as int, hi as int) =~= body);
        while i < hi
            invariant
                lo <= i <= hi <= all@.len(),
                result@ + unescape(all@.subrange(i as int, hi as int)) == unescape(body),
            decreases hi - i,
        {
            let ghost rest = all@.subrange(i as int, hi as int);
            let c = all[i];
            if c == ':' && i + 1 < hi {
                match escape_char(all[i + 1]) {
                    Some(e) => {
                        assert(rest.skip(2) =~= all@.subrange(i + 2, hi as int));
                        let ghost old_result = result@;
                        result.push(e);
                        assert(result@ + unescape(all@.subrange(i + 2, hi as int)) =~= old_result
                            + unescape(rest));
                        i = i + 2;
                        continue;
                    },
                    None => {},
                }
            }
            assert(rest.skip(1) =~= all@.subrange(i + 1, hi as int));
            let ghost old_result = result@;
            result.push(c);
            assert(result@ + unescape(all@.subrange(i + 1, hi as int)) =~= old_result + unescape(
                rest,
            ));
            i = i + 1;
        }
        assert(all@.subrange(hi as int, hi as int) =~= Seq::<char>::empty());
        assert(result@ =~= result@ + unescape(all@.subrange(hi as int, hi as int)));
        Yarn { value: string_of(result.as_slice()) }
    }

    /// Appends another YARN.
    pub fn concat(&mut self, other: Yarn)
        ensures
            final(self)@ == old(self)@ + other@,
    {
        self.value.append(other.value.as_str());
    }
}

/// A boolean value.
#[derive(Debug)]
pub struct Troof {
    value: bool,
}

impl View for Troof {
    type V = bool;

    closed spec fn view(&self) -> bool {
        self.value
    }
}

/// The TROOF a YARN converts to: false when empty; when it reads as a NUMBR or else as
/// a NUMBAR, whether that number is non-zero; true for any other text.
pub open spec fn yarn_troof(y: Seq<char>) -> bool {
    if y.len() == 0 {
        false
    } else if parse_i64(y) is Some {
        parse_i64(y)->0 != 0
    } else if decimal_parse(y) is Some {
        (decimal_parse(y)->0).0 != 0
    } else {
        true
    }
}

impl Troof {
    pub fn new(v: bool) -> (r: Troof)
        ensures
            r@ == v,
    {
        Troof { value: v }
    }

    pub fn value(&self) -> (r: bool)
        ensures
            r == self@,
    {
        self.value
    }

    pub fn copy(&self) -> (r: Troof)
        ensures
            r@ == self@,
    {
        Troof { value: self.value }
    }

    /// Negates the TROOF.
    pub fn flip_value(&mut self)
        ensures
            final(self)@ == !old(self)@,
    {
        self.value = !self.value
    }

    /// How the TROOF is written: `WIN` or `FAIL`.
    pub fn text(&self) -> (r: &'static str)
        ensures
            r@ == (if self@ {
                "WIN"@
            } else {
                "FAIL"@
            }),
    {
        if self.value {
            "WIN"
        } else {
            "FAIL"
        }
    }

    /// A NUMBAR is true when it is not zero.
    pub fn from_numbar(value: Numbar) -> (r: Troof)
        ensures
            r@ == (value@.0 != 0),
    {
        Troof::new(!value.value.is_zero())
    }

    /// A NUMBR is true when it is not zero.
    pub fn from_numbr(value: Numbr) -> (r: Troof)
        ensures
            r@ == (value@ != 0),
    {
        Troof::new(value.value != 0)
    }

    /// A YARN's truth (see `yarn_troof`).
    pub fn from_yarn(value: Yarn) -> (r: Troof)
        ensures
            r@ == yarn_troof(value@),
    {
        if value.value.as_str().is_empty() {
            return Troof::new(false);
        }
        let whole = Numbr::try_from_yarn(value.copy());
        if let Ok(whole) = whole {
            return Troof::new(whole.value != 0);
        }
        let dec = Numbar::try_from_yarn(value.copy());
        if let Ok(dec) = dec {
            return Troof::new(!dec.value.is_zero());
        }
        Troof::new(true)
    }
}


/// A YARN literal without `:` is its text between the quotes: only `:` starts an
/// escape.
pub proof fn law_literal_without_escapes(s: Seq<char>)
    requires
        forall|i: int| 0 <= i < s.len() ==> s[i] != ':',
    ensures
        unescape(s) == s,
    decreases s.len(),
{
    if s.len() > 0 {
        let t = s.skip(1);
        assert forall|i: int| 0 <= i < t.len() implies t[i] != ':' by {
            assert(t[i] == s[i + 1]);
        }
        law_literal_without_escapes(t);
        assert(seq![s[0]] + t =~= s);
    }
}

/// The character an escape `:<c>` stands for, listed out: `:)` a newline, `:>` a tab,
/// `:o` a bell, `:"` a quote, `::` a colon.
pub open spec fn escaped_char(c: char) -> Option<char> {
    if c == ')' {
        Some('\n')
    } else if c == '>' {
        Some('\t')
    } else if c == 'o' {
        Some('\x07')
    } else if c == '"' {
        Some('"')
    } else if c == ':' {
        Some(':')
    } else {
        None
    }
}

proof fn lemma_unescape_plain_prefix(s: Seq<char>, rest: Seq<char>)
    requires
        forall|i: int| 0 <= i < s.len() ==> s[i] != ':',
    ensures
        unescape(s + rest) == s + unescape(rest),
    decreases s.len(),
{
    if s.len() > 0 {
        let t = s.skip(1);
        assert forall|i: int| 0 <= i < t.len() implies t[i] != ':' by {
            assert(t[i] == s[i + 1]);
        }
        assert((s + rest)[0] == s[0]);
        assert((s + rest).skip(1) =~= t + rest);
        lemma_unescape_plain_prefix(t, rest);
        assert(seq![s[0]] + (t + unescape(rest)) =~= s + unescape(rest));
    } else {
        assert(s + rest =~= rest);
        assert(s + unescape(rest) =~= unescape(rest));
    }
}

/// In a YARN literal, after text without `:`, an escape `:<c>` becomes the character it
/// stands for and the rest is read on; a `:` before any other character stays.
pub proof fn law_escapes_in_literals(s: Seq<char>, c: char, rest: Seq<char>)
    requires
        forall|i: int| 0 <= i < s.len() ==> s[i] != ':',
    ensures
        escaped_char(c) matches Some(e) ==> unescape(s + seq![':', c] + rest) == s + seq![e] + unescape(rest),
        escaped_char(c) is None ==> unescape(s + seq![':', c] + rest) == s + seq![':'] + unescape(seq![c] + rest),
{
    let tail = seq![':', c] + rest;
    assert(s + seq![':', c] + rest =~= s + tail);
    lemma_unescape_plain_prefix(s, tail);
    assert(tail[0] == ':' && tail[1] == c);
    assert(tail.skip(2) =~= rest);
    assert(tail.skip(1) =~= seq![c] + rest);
    if escaped_char(c) is Some {
        assert(s + (seq![escaped_char(c)->0] + unescape(rest)) =~= s + seq![escaped_char(c)->0] + unescape(rest));
    } else {
        assert(s + (seq![':'] + unescape(seq![c] + rest)) =~= s + seq![':'] + unescape(seq![c] + rest));
    }
}

} // verus!
