//! Character-level helpers shared by the lexer, the value conversions and the
//! interpreter: conversions between `String` and `Vec<char>`, character classes,
//! trimming, line splitting and integer text.

use vstd::prelude::*;

verus! {

broadcast use vstd::string::group_string_axioms;

/// The characters of a string slice.
pub fn chars_of(s: &str) -> (r: Vec<char>)
    ensures
        r@ == s@,
{
    let mut r: Vec<char> = Vec::new();
    for c in it: s.chars()
        invariant
            it.seq() == s@,
            r@ == s@.take(it.index() as int),
    {
        r.push(c);
    }
    assert(r@ =~= s@);
    r
}

/// `String::push`: appends one character.
#[verifier::external_body]
fn push_char(s: &mut String, c: char)
    ensures
        final(s)@ == old(s)@.push(c),
{
    s.push(c);
}

/// A `String` holding exactly the given characters.
pub fn string_of(v: &[char]) -> (r: String)
    ensures
        r@ == v@,
{
    let mut r = String::new();
    let mut i: usize = 0;
    while i < v.len()
        invariant
            i <= v@.len(),
            r@ == v@.take(i as int),
        decreases v@.len() - i,
    {
        push_char(&mut r, v[i]);
        i = i + 1;
        assert(r@ =~= v@.take(i as int));
    }
    assert(v@.take(v@.len() as int) =~= v@);
    r
}

/// Character-wise equality of two slices.
pub fn chars_eq(a: &[char], b: &[char]) -> (r: bool)
    ensures
        r == (a@ == b@),
{
    if a.len() != b.len() {
        return false;
    }
    let mut i: usize = 0;
    while i < a.len()
        invariant
            a@.len() == b@.len(),
            i <= a@.len(),
            forall|j: int| 0 <= j < i ==> a@[j] == b@[j],
        decreases a@.len() - i,
    {
        if a[i] != b[i] {
            return false;
        }
        i = i + 1;
    }
    assert(a@ =~= b@);
    true
}

/// Whether `s` begins with the characters of `p`.
pub open spec fn starts_with(s: Seq<char>, p: Seq<char>) -> bool {
    p.len() <= s.len() && s.take(p.len() as int) == p
}

/// Whether `s` ends with the characters of `p`.
pub open spec fn ends_with(s: Seq<char>, p: Seq<char>) -> bool {
    p.len() <= s.len() && s.skip(s.len() - p.len()) == p
}

pub open spec fn is_ascii_digit(c: char) -> bool {
    '0' <= c <= '9'
}

pub open spec fn is_ascii_alpha(c: char) -> bool {
    ('a' <= c <= 'z') || ('A' <= c <= 'Z')
}

pub open spec fn is_ascii_alnum(c: char) -> bool {
    is_ascii_digit(c) || is_ascii_alpha(c)
}

/// The Unicode `White_Space` property, as `char::is_whitespace` documents it.
pub open spec fn is_white_space(c: char) -> bool {
    ||| '\u{9}' <= c <= '\u{d}'
    ||| c == ' '
    ||| c == '\u{85}'
    ||| c == '\u{a0}'
    ||| c == '\u{1680}'
    ||| '\u{2000}' <= c <= '\u{200a}'
    ||| c == '\u{2028}'
    ||| c == '\u{2029}'
    ||| c == '\u{202f}'
    ||| c == '\u{205f}'
    ||| c == '\u{3000}'
}

pub fn ascii_digit(c: char) -> (r: bool)
    ensures
        r == is_ascii_digit(c),
{
    '0' <= c && c <= '9'
}

pub fn ascii_alpha(c: char) -> (r: bool)
    ensures
        r == is_ascii_alpha(c),
{
    ('a' <= c && c <= 'z') || ('A' <= c && c <= 'Z')
}

pub fn ascii_alnum(c: char) -> (r: bool)
    ensures
        r == is_ascii_alnum(c),
{
    ascii_digit(c) || ascii_alpha(c)
}

pub fn white_space(c: char) -> (r: bool)
    ensures
        r == is_white_space(c),
{
    ('\u{9}' <= c && c <= '\u{d}') || c == ' ' || c == '\u{85}' || c == '\u{a0}' || c
        == '\u{1680}' || ('\u{2000}' <= c && c <= '\u{200a}') || c == '\u{2028}' || c
        == '\u{2029}' || c == '\u{202f}' || c == '\u{205f}' || c == '\u{3000}'
}

/// `str::trim_start`: drops leading white space.
pub open spec fn trim_start(s: Seq<char>) -> Seq<char>
    decreases s.len(),
{
    if s.len() > 0 && is_white_space(s[0]) {
        trim_start(s.drop_first())
    } else {
        s
    }
}

/// `str::trim_end`: drops trailing white space.
pub open spec fn trim_end(s: Seq<char>) -> Seq<char>
    decreases s.len(),
{
    if s.len() > 0 && is_white_space(s.last()) {
        trim_end(s.drop_last())
    } else {
        s
    }
}

/// `str::trim`.
pub open spec fn trim(s: Seq<char>) -> Seq<char> {
    trim_end(trim_start(s))
}

pub fn trim_start_chars(s: &[char]) -> (r: Vec<char>)
    ensures
        r@ == trim_start(s@),
{
    let mut i: usize = 0;
    assert(s@.skip(0) =~= s@);
    while i < s.len() && white_space(s[i])
        invariant
            i <= s@.len(),
            trim_start(s@.skip(i as int)) == trim_start(s@),
        decreases s@.len() - i,
    {
        assert(s@.skip(i as int).drop_first() =~= s@.skip(i + 1));
        i = i + 1;
    }
    let mut r: Vec<char> = Vec::new();
    let mut j: usize = i;
    while j < s.len()
        invariant
            i <= j <= s@.len(),
            r@ == s@.subrange(i as int, j as int),
        decreases s@.len() - j,
    {
        r.push(s[j]);
        j = j + 1;
        assert(r@ =~= s@.subrange(i as int, j as int));
    }
    assert(r@ =~= s@.skip(i as int));
    r
}

pub fn trim_end_chars(s: &[char]) -> (r: Vec<char>)
    ensures
        r@ == trim_end(s@),
{
    let mut n: usize = s.len();
    assert(s@.take(n as int) =~= s@);
    while n > 0 && white_space(s[n - 1])
        invariant
            n <= s@.len(),
            trim_end(s@.take(n as int)) == trim_end(s@),
        decreases n,
    {
        assert(s@.take(n as int).drop_last() =~= s@.take(n - 1));
        n = n - 1;
    }
    let mut r: Vec<char> = Vec::new();
    let mut j: usize = 0;
    while j < n
        invariant
            j <= n <= s@.len(),
            r@ == s@.take(j as int),
        decreases n - j,
    {
        r.push(s[j]);
        j = j + 1;
        assert(r@ =~= s@.take(j as int));
    }
    assert(s@.take(n as int) =~= trim_end(s@.take(n as int)));
    r
}

pub fn trim_chars(s: &[char]) -> (r: Vec<char>)
    ensures
        r@ == trim(s@),
{
    let t = trim_start_chars(s);
    trim_end_chars(t.as_slice())
}

/// Index of the first `c` in `s`, or `s.len()` when there is none.
pub open spec fn find_char(s: Seq<char>, c: char) -> int
    decreases s.len(),
{
    if s.len() == 0 {
        0
    } else if s[0] == c {
        0
    } else {
        1 + find_char(s.drop_first(), c)
    }
}

pub proof fn lemma_find_char(s: Seq<char>, c: char)
    ensures
        0 <= find_char(s, c) <= s.len(),
        forall|j: int| 0 <= j < find_char(s, c) ==> s[j] != c,
        find_char(s, c) < s.len() ==> s[find_char(s, c)] == c,
    decreases s.len(),
{
    if s.len() > 0 && s[0] != c {
        lemma_find_char(s.drop_first(), c);
        assert forall|j: int| 0 <= j < find_char(s, c) implies s[j] != c by {
            if j > 0 {
                assert(s[j] == s.drop_first()[j - 1]);
            }
        }
    }
}

pub proof fn lemma_find_char_unique(s: Seq<char>, c: char, k: int)
    requires
        0 <= k <= s.len(),
        forall|j: int| 0 <= j < k ==> s[j] != c,
        k < s.len() ==> s[k] == c,
    ensures
        find_char(s, c) == k,
    decreases s.len(),
{
    if s.len() > 0 && s[0] != c {
        assert forall|j: int| 0 <= j < k - 1 implies s.drop_first()[j] != c by {
            assert(s.drop_first()[j] == s[j + 1]);
        }
        lemma_find_char_unique(s.drop_first(), c, k - 1);
    }
}

/// One line as `str::lines` yields it: the text before the newline at `i`, without
/// a carriage return that directly precedes that newline.
pub open spec fn line_before(s: Seq<char>, i: int) -> Seq<char> {
    if i < s.len() && i > 0 && s[i - 1] == '\r' {
        s.take(i - 1)
    } else {
        s.take(i)
    }
}

/// `str::lines`: the lines of `s`, split at `\n` (with `\r\n` counted as one line
/// ending); a final line ending is optional, and an empty text has no line.
pub open spec fn lines(s: Seq<char>) -> Seq<Seq<char>>
    decreases s.len(),
{
    if s.len() == 0 {
        seq![]
    } else {
        let i = find_char(s, '\n');
        proof {
            lemma_find_char(s, '\n');
        }
        if i >= s.len() {
            seq![line_before(s, i)]
        } else {
            seq![line_before(s, i)] + lines(s.skip(i + 1))
        }
    }
}

pub open spec fn views(v: Seq<Vec<char>>) -> Seq<Seq<char>> {
    v.map_values(|x: Vec<char>| x@)
}

pub fn split_lines(s: &[char]) -> (r: Vec<Vec<char>>)
    ensures
        views(r@) == lines(s@),
{
    let mut r: Vec<Vec<char>> = Vec::new();
    let mut start: usize = 0;
    assert(s@.skip(0) =~= s@);
    assert(views(r@) + lines(s@) =~= lines(s@));
    while start < s.len()
        invariant
            start <= s@.len(),
            views(r@) + lines(s@.skip(start as int)) == lines(s@),
        decreases s@.len() - start,
    {
        let ghost rest = s@.skip(start as int);
        let mut j: usize = start;
        while j < s.len() && s[j] != '\n'
            invariant
                start <= j <= s@.len(),
                forall|k: int| start <= k < j ==> s@[k] != '\n',
            decreases s@.len() - j,
        {
            j = j + 1;
        }
        proof {
            lemma_find_char_unique(rest, '\n', j - start);
        }
        let end: usize = if j < s.len() && j > start && s[j - 1] == '\r' {
            j - 1
        } else {
            j
        };
        let mut line: Vec<char> = Vec::new();
        let mut k: usize = start;
        while k < end
            invariant
                start <= k <= end <= s@.len(),
                line@ == s@.subrange(start as int, k as int),
            decreases end - k,
        {
            line.push(s[k]);
            k = k + 1;
            assert(line@ =~= s@.subrange(start as int, k as int));
        }
        assert(line@ =~= line_before(rest, j - start));
        let ghost old_r = r@;
        r.push(line);
        assert(views(r@) =~= views(old_r).push(line@));
        if j >= s.len() {
            assert(lines(rest) =~= seq![line@]);
            start = s.len();
            assert(lines(s@.skip(start as int)) =~= Seq::<Seq<char>>::empty());
            assert(views(r@) + lines(s@.skip(start as int)) =~= views(old_r) + lines(rest));
        } else {
            assert(rest.skip(j - start + 1) =~= s@.skip(j + 1));
            start = j + 1;
            assert(views(r@) + lines(s@.skip(start as int)) =~= views(old_r) + lines(rest));
        }
    }
    assert(s@.skip(start as int) =~= Seq::<char>::empty());
    assert(views(r@) =~= views(r@) + lines(s@.skip(start as int)));
    r
}

/// The digit character for `d < 10`.
pub open spec fn digit_char(d: int) -> char {
    (('0' as int) + d) as char
}

/// Decimal text of a natural number, without leading zeros.
pub open spec fn nat_text(n: nat) -> Seq<char>
    decreases n,
{
    if n < 10 {
        seq![digit_char(n as int)]
    } else {
        nat_text(n / 10).push(digit_char((n % 10) as int))
    }
}

/// Decimal text of an integer, as `i64`'s `Display` writes it.
pub open spec fn int_text(n: int) -> Seq<char> {
    if n < 0 {
        seq!['-'] + nat_text((-n) as nat)
    } else {
        nat_text(n as nat)
    }
}

fn digit_to_char(d: u64) -> (c: char)
    requires
        d < 10,
    ensures
        c == digit_char(d as int),
{
    match d {
        0 => '0',
        1 => '1',
        2 => '2',
        3 => '3',
        4 => '4',
        5 => '5',
        6 => '6',
        7 => '7',
        8 => '8',
        _ => '9',
    }
}

/// The decimal text of an `i64` (what `format!("{}", n)` writes).
pub fn i64_text(n: i64) -> (r: Vec<char>)
    ensures
        r@ == int_text(n as int),
{
    let mag: u64 = if n < 0 {
        if n == i64::MIN {
            9223372036854775808u64
        } else {
            (-n) as u64
        }
    } else {
        n as u64
    };
    let mut digits: Vec<char> = Vec::new();
    let mut m: u64 = mag;
    loop
        invariant_except_break
            m > 0 ==> nat_text(mag as nat) == nat_text(m as nat) + digits@,
            m == 0 ==> mag == 0 && digits@.len() == 0,
        ensures
            m == 0,
            nat_text(mag as nat) == digits@,
        decreases m,
    {
        let d = m % 10;
        let c = digit_to_char(d);
        let ghost old_digits = digits@;
        digits.insert(0, c);
        assert(digits@ =~= seq![c] + old_digits);
        let ghost old_m = m;
        m = m / 10;
        if m == 0 {
            assert(nat_text(old_m as nat) == seq![c]);
            assert(digits@ =~= nat_text(old_m as nat) + old_digits);
            assert(old_m == 0 ==> digits@ =~= nat_text(mag as nat));
            break;
        } else {
            assert(nat_text(old_m as nat) == nat_text(m as nat).push(c));
            assert(nat_text(m as nat) + digits@ =~= nat_text(m as nat).push(c) + old_digits);
        }
    }
    if n < 0 {
        let mut r: Vec<char> = Vec::new();
        r.push('-');
        let mut k: usize = 0;
        while k < digits.len()
            invariant
                k <= digits@.len(),
                r@ == seq!['-'] + digits@.take(k as int),
            decreases digits@.len() - k,
        {
            r.push(digits[k]);
            k = k + 1;
            assert(r@ =~= seq!['-'] + digits@.take(k as int));
        }
        assert(digits@.take(digits@.len() as int) =~= digits@);
        r
    } else {
        digits
    }
}


/// The integer written by a sequence of decimal digits.
pub open spec fn digits_int(s: Seq<char>) -> int
    decreases s.len(),
{
    if s.len() == 0 {
        0
    } else {
        digits_int(s.drop_last()) * 10 + (s.last() as int - '0' as int)
    }
}

pub open spec fn all_digits(s: Seq<char>) -> bool {
    forall|i: int| 0 <= i < s.len() ==> is_ascii_digit(#[trigger] s[i])
}

/// `i64::from_str`: an optional `+` or `-` followed by one or more ASCII digits,
/// whose value fits in an `i64`.
pub open spec fn parse_i64(s: Seq<char>) -> Option<i64> {
    let signed = s.len() > 0 && (s[0] == '-' || s[0] == '+');
    let body = if signed {
        s.drop_first()
    } else {
        s
    };
    let v = if s.len() > 0 && s[0] == '-' {
        -digits_int(body)
    } else {
        digits_int(body)
    };
    if body.len() > 0 && all_digits(body) && i64::MIN <= v <= i64::MAX {
        Some(v as i64)
    } else {
        None
    }
}

proof fn lemma_digits_int_nonneg(s: Seq<char>)
    requires
        all_digits(s),
    ensures
        digits_int(s) >= 0,
    decreases s.len(),
{
    if s.len() > 0 {
        assert(is_ascii_digit(s[s.len() - 1]));
        assert(all_digits(s.drop_last())) by {
            assert forall|i: int| 0 <= i < s.drop_last().len() implies is_ascii_digit(
                #[trigger] s.drop_last()[i],
            ) by {
                assert(s.drop_last()[i] == s[i]);
            }
        }
        lemma_digits_int_nonneg(s.drop_last());
    }
}

/// A longer run of digits is worth at least as much as its prefixes.
proof fn lemma_digits_int_prefix(s: Seq<char>, j: int)
    requires
        all_digits(s),
        0 <= j <= s.len(),
    ensures
        digits_int(s.take(j)) <= digits_int(s),
    decreases s.len(),
{
    if j < s.len() {
        let t = s.drop_last();
        assert(all_digits(t)) by {
            assert forall|i: int| 0 <= i < t.len() implies is_ascii_digit(#[trigger] t[i]) by {
                assert(t[i] == s[i]);
            }
        }
        lemma_digits_int_prefix(t, j);
        assert(t.take(j) =~= s.take(j));
        lemma_digits_int_nonneg(t);
        assert(is_ascii_digit(s[s.len() - 1]));
    } else {
        assert(s.take(j) =~= s);
    }
}

pub fn parse_i64_chars(s: &[char]) -> (r: Option<i64>)
    ensures
        r == parse_i64(s@),
{
    let len = s.len();
    let neg = len > 0 && s[0] == '-';
    let start: usize = if len > 0 && (s[0] == '-' || s[0] == '+') {
        1
    } else {
        0
    };
    let ghost body = if start == 1 {
        s@.drop_first()
    } else {
        s@
    };
    assert(body =~= s@.skip(start as int));
    assert(body == (if s@.len() > 0 && (s@[0] == '-' || s@[0] == '+') {
        s@.drop_first()
    } else {
        s@
    }));
    if start == len {
        return None;
    }
    let mut acc: i64 = 0;
    let mut i: usize = start;
    assert(s@.subrange(start as int, start as int) =~= Seq::<char>::empty());
    while i < len
        invariant
            start <= i <= len,
            len == s@.len(),
            body == s@.skip(start as int),
            body == (if s@.len() > 0 && (s@[0] == '-' || s@[0] == '+') {
                s@.drop_first()
            } else {
                s@
            }),
            neg == (s@.len() > 0 && s@[0] == '-'),
            all_digits(s@.subrange(start as int, i as int)),
            acc == (if neg {
                -digits_int(s@.subrange(start as int, i as int))
            } else {
                digits_int(s@.subrange(start as int, i as int))
            }),
        decreases len - i,
    {
        let c = s[i];
        if !ascii_digit(c) {
            assert(body[i - start] == s@[i as int]);
            assert(!is_ascii_digit(body[i - start]));
            return None;
        }
        let d: i64 = (c as u32 - '0' as u32) as i64;
        let ghost pre = s@.subrange(start as int, i as int);
        let ghost next = s@.subrange(start as int, i + 1);
        assert(next.drop_last() =~= pre);
        assert(all_digits(next)) by {
            assert forall|k: int| 0 <= k < next.len() implies is_ascii_digit(#[trigger] next[k]) by {
                if k < pre.len() {
                    assert(next[k] == pre[k]);
                }
            }
        }
        assert(body.take(i + 1 - start) =~= next);
        proof {
            lemma_digits_int_nonneg(pre);
        }
        assert(next.last() == c);
        assert(digits_int(next) == digits_int(pre) * 10 + d);
        if neg {
            if acc < -922337203685477580i64 || (acc == -922337203685477580i64 && d > 8) {
                proof {
                    lemma_digits_int_prefix_or_not(body, (i + 1 - start) as int);
                }
                assert(-digits_int(next) < i64::MIN);
                return None;
            }
            acc = acc * 10 - d;
        } else {
            if acc > 922337203685477580i64 || (acc == 922337203685477580i64 && d > 7) {
                proof {
                    lemma_digits_int_prefix_or_not(body, (i + 1 - start) as int);
                }
                assert(digits_int(next) > i64::MAX);
                return None;
            }
            acc = acc * 10 + d;
        }
        i = i + 1;
    }
    assert(s@.subrange(start as int, len as int) =~= body);
    Some(acc)
}

/// Either some later character is not a digit, or the whole run is worth at least
/// as much as the prefix of length `j`.
proof fn lemma_digits_int_prefix_or_not(s: Seq<char>, j: int)
    requires
        0 <= j <= s.len(),
    ensures
        all_digits(s) ==> digits_int(s.take(j)) <= digits_int(s),
{
    if all_digits(s) {
        lemma_digits_int_prefix(s, j);
    }
}

/// Value of one hexadecimal digit, or -1 for any other character.
pub open spec fn hex_value(c: char) -> int {
    if '0' <= c <= '9' {
        c as int - '0' as int
    } else if 'a' <= c <= 'f' {
        c as int - 'a' as int + 10
    } else if 'A' <= c <= 'F' {
        c as int - 'A' as int + 10
    } else {
        -1
    }
}

pub open spec fn hex_int(s: Seq<char>) -> int
    decreases s.len(),
{
    if s.len() == 0 {
        0
    } else {
        hex_int(s.drop_last()) * 16 + hex_value(s.last())
    }
}

pub open spec fn all_hex(s: Seq<char>) -> bool {
    forall|i: int| 0 <= i < s.len() ==> hex_value(#[trigger] s[i]) >= 0
}

/// `u32::from_str_radix(s, 16)`: an optional `+` followed by one or more hexadecimal
/// digits (either case), whose value fits in a `u32`.
pub open spec fn parse_hex_u32(s: Seq<char>) -> Option<u32> {
    let body = if s.len() > 0 && s[0] == '+' {
        s.drop_first()
    } else {
        s
    };
    if body.len() > 0 && all_hex(body) && hex_int(body) <= u32::MAX {
        Some(hex_int(body) as u32)
    } else {
        None
    }
}

proof fn lemma_hex_int_prefix(s: Seq<char>, j: int)
    requires
        all_hex(s),
        0 <= j <= s.len(),
    ensures
        0 <= hex_int(s.take(j)) <= hex_int(s),
    decreases s.len(),
{
    if s.len() == 0 {
        assert(s.take(j) =~= s);
    } else if j < s.len() {
        let t = s.drop_last();
        assert(all_hex(t)) by {
            assert forall|i: int| 0 <= i < t.len() implies hex_value(#[trigger] t[i]) >= 0 by {
                assert(t[i] == s[i]);
            }
        }
        lemma_hex_int_prefix(t, j);
        lemma_hex_int_prefix(t, t.len() as int);
        assert(t.take(j) =~= s.take(j));
        assert(t.take(t.len() as int) =~= t);
        assert(hex_value(s[s.len() - 1]) >= 0);
    } else {
        assert(s.take(j) =~= s);
        let t = s.drop_last();
        assert(all_hex(t)) by {
            assert forall|i: int| 0 <= i < t.len() implies hex_value(#[trigger] t[i]) >= 0 by {
                assert(t[i] == s[i]);
            }
        }
        lemma_hex_int_prefix(t, t.len() as int);
        assert(t.take(t.len() as int) =~= t);
        assert(hex_value(s[s.len() - 1]) >= 0);
    }
}

fn hex_digit(c: char) -> (r: Option<u32>)
    ensures
        r matches Some(v) ==> v as int == hex_value(c) && hex_value(c) >= 0,
        r is None ==> hex_value(c) < 0,
{
    if '0' <= c && c <= '9' {
        Some(c as u32 - '0' as u32)
    } else if 'a' <= c && c <= 'f' {
        Some(c as u32 - 'a' as u32 + 10)
    } else if 'A' <= c && c <= 'F' {
        Some(c as u32 - 'A' as u32 + 10)
    } else {
        None
    }
}

pub fn parse_hex_u32_chars(s: &[char]) -> (r: Option<u32>)
    ensures
        r == parse_hex_u32(s@),
{
    let len = s.len();
    let start: usize = if len > 0 && s[0] == '+' {
        1
    } else {
        0
    };
    let ghost body = if start == 1 {
        s@.drop_first()
    } else {
        s@
    };
    assert(body =~= s@.skip(start as int));
    assert(body == (if s@.len() > 0 && s@[0] == '+' {
        s@.drop_first()
    } else {
        s@
    }));
    if start == len {
        return None;
    }
    let mut acc: u32 = 0;
    let mut i: usize = start;
    assert(s@.subrange(start as int, start as int) =~= Seq::<char>::empty());
    while i < len
        invariant
            start <= i <= len,
            len == s@.len(),
            body == s@.skip(start as int),
            body == (if s@.len() > 0 && s@[0] == '+' {
                s@.drop_first()
            } else {
                s@
            }),
            all_hex(s@.subrange(start as int, i as int)),
            acc == hex_int(s@.subrange(start as int, i as int)),
        decreases len - i,
    {
        let c = s[i];
        let ghost pre = s@.subrange(start as int, i as int);
        let ghost next = s@.subrange(start as int, i + 1);
        match hex_digit(c) {
            None => {
                assert(body[i - start] == s@[i as int]);
                assert(hex_value(body[i - start]) < 0);
                return None;
            },
            Some(d) => {
                assert(next.drop_last() =~= pre);
                assert(all_hex(next)) by {
                    assert forall|k: int| 0 <= k < next.len() implies hex_value(#[trigger] next[k]) >= 0 by {
                        if k < pre.len() {
                            assert(next[k] == pre[k]);
                        }
                    }
                }
                assert(body.take(i + 1 - start) =~= next);
                assert(next.last() == c);
                assert(hex_int(next) == hex_int(pre) * 16 + d);
                let lim: u32 = (u32::MAX - d) / 16;
                if acc > lim {
                    assert(acc * 16 + d > u32::MAX) by (nonlinear_arith)
                        requires
                            acc > lim,
                            lim == (u32::MAX - d) / 16,
                            0 <= d <= 15,
                    ;
                    proof {
                        if all_hex(body) {
                            lemma_hex_int_prefix(body, (i + 1 - start) as int);
                        }
                    }
                    return None;
                }
                assert(acc * 16 + d <= u32::MAX) by (nonlinear_arith)
                    requires
                        acc <= lim,
                        lim == (u32::MAX - d) / 16,
                        0 <= d <= 15,
                ;
                acc = acc * 16 + d;
            },
        }
        i = i + 1;
    }
    assert(s@.subrange(start as int, len as int) =~= body);
    Some(acc)
}

/// Whether `v` is a Unicode scalar value (what `char::from_u32` accepts).
pub open spec fn is_scalar_value(v: u32) -> bool {
    v < 0xD800 || (0xE000 <= v && v <= 0x10FFFF)
}

/// `char::from_u32`: the character with that code point, if it is one.
#[verifier::external_body]
pub(crate) fn char_from_u32(v: u32) -> (r: Option<char>)
    ensures
        r is Some <==> is_scalar_value(v),
        r matches Some(c) ==> c == v as char && c as u32 == v,
{
    char::from_u32(v)
}

/// The upper-case form of an ASCII letter; any other character is itself.
pub open spec fn ascii_upper(c: char) -> char {
    if 'a' <= c <= 'z' {
        ((c as u32) - 32) as char
    } else {
        c
    }
}

/// A text with its ASCII letters in upper case.
pub open spec fn upper_text(s: Seq<char>) -> Seq<char> {
    s.map_values(|c: char| ascii_upper(c))
}

/// The hexadecimal letters `a` to `f` are the digits 10 to 15, in either case.
pub proof fn law_hex_letters_either_case(c: char)
    requires
        'a' <= c <= 'f',
    ensures
        hex_value(c) == 10 + (c as int - 'a' as int),
        hex_value(ascii_upper(c)) == hex_value(c),
{
    let u = ascii_upper(c);
    assert(u as int == c as int - 32);
}

/// Every character reads as the same hexadecimal digit (or as none) in upper case.
pub proof fn law_hex_value_either_case(c: char)
    ensures
        hex_value(ascii_upper(c)) == hex_value(c),
{
    if 'a' <= c <= 'z' {
        let u = ascii_upper(c);
        assert(u as int == c as int - 32);
    }
}

proof fn lemma_hex_int_case(s: Seq<char>)
    ensures
        hex_int(upper_text(s)) == hex_int(s),
        all_hex(upper_text(s)) == all_hex(s),
    decreases s.len(),
{
    let u = upper_text(s);
    assert forall|i: int| 0 <= i < s.len() implies hex_value(#[trigger] u[i]) == hex_value(s[i]) by {
        law_hex_value_either_case(s[i]);
    }
    if s.len() > 0 {
        assert(u.drop_last() =~= upper_text(s.drop_last()));
        lemma_hex_int_case(s.drop_last());
        assert(hex_value(u.last()) == hex_value(s.last()));
    }
    if all_hex(s) {
        assert forall|i: int| 0 <= i < u.len() implies hex_value(#[trigger] u[i]) >= 0 by {
            assert(hex_value(u[i]) == hex_value(s[i]));
        }
    }
    if all_hex(u) {
        assert forall|i: int| 0 <= i < s.len() implies hex_value(#[trigger] s[i]) >= 0 by {
            assert(hex_value(u[i]) == hex_value(s[i]));
        }
    }
}

/// Reading a hexadecimal number does not depend on the case of its letters: a text
/// and its upper-case form give the same number, or both none.
pub proof fn law_hex_text_either_case(s: Seq<char>)
    ensures
        parse_hex_u32(upper_text(s)) == parse_hex_u32(s),
{
    let u = upper_text(s);
    if s.len() > 0 {
        assert(u[0] == ascii_upper(s[0]));
        assert(u[0] == '+' <==> s[0] == '+');
        if s[0] == '+' {
            assert(u.drop_first() =~= upper_text(s.drop_first()));
            lemma_hex_int_case(s.drop_first());
        } else {
            lemma_hex_int_case(s);
        }
    }
}

} // verus!
