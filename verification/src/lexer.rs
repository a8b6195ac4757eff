//! Turning source text into lines of tokens.

use vstd::prelude::*;
use crate::app_error::{AppError, AppErrorModel};
use crate::decimal::{Decimal, decimal_parse, rescalable_to_zero};
use crate::keywords::{Keyword, keyword_of};
use crate::text::{chars_eq, chars_of, ends_with, find_char, is_white_space, lemma_find_char, lemma_find_char_unique, line_before, parse_i64, parse_i64_chars, starts_with, int_text, lines, split_lines, string_of, trim, trim_end, trim_end_chars, trim_start, trim_start_chars, views};
use crate::types::identifier::{Identifier, is_valid_identifier};
use crate::types::primitive::{Numbar, Numbr, Troof, Yarn, literal_body, numbar_text, unescape};

verus! {

broadcast use vstd::string::group_string_axioms;

/// One token of a line.
#[derive(Debug)]
pub enum Token {
    Keyword(Keyword),
    Identifier(Identifier),
    Yarn(Yarn),
    Numbr(Numbr),
    Numbar(Numbar),
    Troof(Troof),
    QuestionMark,
    ExclamationMark,
}

/// A token with its payload taken by its view.
pub enum TokenModel {
    Keyword(Keyword),
    Identifier(Seq<char>),
    Yarn(Seq<char>),
    Numbr(i64),
    Numbar((int, int)),
    Troof(bool),
    QuestionMark,
    ExclamationMark,
}

impl View for Token {
    type V = TokenModel;

    open spec fn view(&self) -> TokenModel {
        match self {
            Token::Keyword(k) => TokenModel::Keyword(*k),
            Token::Identifier(i) => TokenModel::Identifier(i@),
            Token::Yarn(y) => TokenModel::Yarn(y@),
            Token::Numbr(n) => TokenModel::Numbr(n@),
            Token::Numbar(n) => TokenModel::Numbar(n@),
            Token::Troof(t) => TokenModel::Troof(t@),
            Token::QuestionMark => TokenModel::QuestionMark,
            Token::ExclamationMark => TokenModel::ExclamationMark,
        }
    }
}

/// How a token is written (its `Display`).
pub open spec fn token_text(t: TokenModel) -> Seq<char> {
    match t {
        TokenModel::Keyword(k) => k.spec_text(),
        TokenModel::Identifier(s) => s,
        TokenModel::Yarn(s) => seq!['"'] + s + seq!['"'],
        TokenModel::Numbr(n) => int_text(n as int),
        TokenModel::Numbar(d) => numbar_text(d),
        TokenModel::Troof(b) => if b {
            "WIN"@
        } else {
            "FAIL"@
        },
        TokenModel::QuestionMark => seq!['?'],
        TokenModel::ExclamationMark => seq!['!'],
    }
}

/// The texts of the tokens, separated by single spaces.
pub open spec fn tokens_text(ts: Seq<TokenModel>) -> Seq<char>
    decreases ts.len(),
{
    if ts.len() == 0 {
        seq![]
    } else if ts.len() == 1 {
        token_text(ts[0])
    } else {
        tokens_text(ts.drop_last()) + seq![' '] + token_text(ts.last())
    }
}

/// The views of a sequence of tokens.
pub open spec fn token_views(ts: Seq<Token>) -> Seq<TokenModel> {
    ts.map_values(|t: Token| t@)
}

fn append_chars(r: &mut Vec<char>, s: &[char])
    ensures
        final(r)@ == old(r)@ + s@,
{
    let mut i: usize = 0;
    while i < s.len()
        invariant
            i <= s@.len(),
            r@ == old(r)@ + s@.take(i as int),
        decreases s@.len() - i,
    {
        r.push(s[i]);
        i = i + 1;
        assert(r@ =~= old(r)@ + s@.take(i as int));
    }
    assert(s@.take(s@.len() as int) =~= s@);
}

impl Token {
    pub fn copy(&self) -> (r: Token)
        ensures
            r@ == self@,
    {
        match self {
            Token::Keyword(k) => Token::Keyword(*k),
            Token::Identifier(i) => Token::Identifier(i.copy()),
            Token::Yarn(y) => Token::Yarn(y.copy()),
            Token::Numbr(n) => Token::Numbr(n.copy()),
            Token::Numbar(n) => Token::Numbar(n.copy()),
            Token::Troof(t) => Token::Troof(t.copy()),
            Token::QuestionMark => Token::QuestionMark,
            Token::ExclamationMark => Token::ExclamationMark,
        }
    }

    /// Whether this token is the given keyword.
    pub fn is_keyword(&self, k: Keyword) -> (r: bool)
        ensures
            r == (self@ == TokenModel::Keyword(k)),
    {
        match self {
            Token::Keyword(k2) => *k2 == k,
            _ => false,
        }
    }

    /// How the token is written (its `Display`).
    pub fn text(&self) -> (r: Vec<char>)
        ensures
            r@ == token_text(self@),
    {
        match self {
            Token::Keyword(k) => chars_of(k.text()),
            Token::Identifier(id) => chars_of(id.as_str()),
            Token::Yarn(s) => {
                let mut r: Vec<char> = Vec::new();
                r.push('"');
                let body = s.to_chars();
                append_chars(&mut r, body.as_slice());
                r.push('"');
                assert(r@ =~= seq!['"'] + s@ + seq!['"']);
                r
            },
            Token::Numbr(n) => n.text(),
            Token::Numbar(n) => n.text(),
            Token::Troof(b) => chars_of(b.text()),
            Token::QuestionMark => {
                let mut r: Vec<char> = Vec::new();
                r.push('?');
                assert(r@ =~= seq!['?']);
                r
            },
            Token::ExclamationMark => {
                let mut r: Vec<char> = Vec::new();
                r.push('!');
                assert(r@ =~= seq!['!']);
                r
            },
        }
    }
}

/// Copies a slice of tokens.
pub fn copy_tokens(ts: &[Token]) -> (r: Vec<Token>)
    ensures
        token_views(r@) == token_views(ts@),
{
    let mut r: Vec<Token> = Vec::new();
    let mut i: usize = 0;
    while i < ts.len()
        invariant
            i <= ts@.len(),
            token_views(r@) == token_views(ts@.take(i as int)),
        decreases ts@.len() - i,
    {
        let ghost old_r = r@;
        let t = ts[i].copy();
        r.push(t);
        assert(ts@.take(i + 1) =~= ts@.take(i as int).push(ts@[i as int]));
        assert(token_views(r@) =~= token_views(old_r).push(t@));
        i = i + 1;
        assert(token_views(r@) =~= token_views(ts@.take(i as int)));
    }
    assert(ts@.take(ts@.len() as int) =~= ts@);
    r
}

/// A line of tokens, as error messages show it.
#[derive(Debug)]
pub struct Tokens(pub Vec<Token>);

impl View for Tokens {
    type V = Seq<TokenModel>;

    open spec fn view(&self) -> Seq<TokenModel> {
        token_views(self.0@)
    }
}

impl Tokens {
    /// A copy of the given tokens.
    pub fn of(ts: &[Token]) -> (r: Tokens)
        ensures
            r@ == token_views(ts@),
    {
        Tokens(copy_tokens(ts))
    }

    /// The tokens' texts separated by spaces (its `Display`).
    pub fn text(&self) -> (r: Vec<char>)
        ensures
            r@ == tokens_text(self@),
    {
        let ts = &self.0;
        let mut r: Vec<char> = Vec::new();
        let mut i: usize = 0;
        while i < ts.len()
            invariant
                i <= ts@.len(),
                r@ == tokens_text(token_views(ts@.take(i as int))),
            decreases ts@.len() - i,
        {
            let ghost pre = token_views(ts@.take(i as int));
            let ghost next = token_views(ts@.take(i + 1));
            assert(next.drop_last() =~= pre);
            if i > 0 {
                r.push(' ');
            }
            let t = ts[i].text();
            append_chars(&mut r, t.as_slice());
            i = i + 1;
            assert(r@ =~= tokens_text(next));
        }
        assert(ts@.take(ts@.len() as int) =~= ts@);
        r
    }
}

/// `replace("\r\n", "\n")`: each carriage-return-line-feed pair becomes a newline.
pub open spec fn replace_crlf(s: Seq<char>) -> Seq<char>
    decreases s.len(),
{
    if s.len() == 0 {
        seq![]
    } else if s.len() >= 2 && s[0] == '\r' && s[1] == '\n' {
        seq!['\n'] + replace_crlf(s.skip(2))
    } else {
        seq![s[0]] + replace_crlf(s.skip(1))
    }
}

/// `replace('\r', "\n")`.
pub open spec fn replace_cr(s: Seq<char>) -> Seq<char> {
    s.map_values(|c: char| if c == '\r' { '\n' } else { c })
}

/// Line endings made uniform: every `\r\n` and every lone `\r` becomes `\n`.
pub open spec fn unify_newlines(s: Seq<char>) -> Seq<char> {
    replace_cr(replace_crlf(s))
}

fn unify_newlines_chars(s: &[char]) -> (r: Vec<char>)
    ensures
        r@ == unify_newlines(s@),
{
    let mut a: Vec<char> = Vec::new();
    let mut i: usize = 0;
    assert(s@.skip(0) =~= s@);
    while i < s.len()
        invariant
            i <= s@.len(),
            a@ + replace_crlf(s@.skip(i as int)) == replace_crlf(s@),
        decreases s@.len() - i,
    {
        let ghost rest = s@.skip(i as int);
        let ghost old_a = a@;
        if i + 1 < s.len() && s[i] == '\r' && s[i + 1] == '\n' {
            a.push('\n');
            assert(rest.skip(2) =~= s@.skip(i + 2));
            assert(a@ + replace_crlf(s@.skip(i + 2)) =~= old_a + replace_crlf(rest));
            i = i + 2;
        } else {
            a.push(s[i]);
            assert(rest.skip(1) =~= s@.skip(i + 1));
            assert(a@ + replace_crlf(s@.skip(i + 1)) =~= old_a + replace_crlf(rest));
            i = i + 1;
        }
    }
    assert(s@.skip(i as int) =~= Seq::<char>::empty());
    assert(a@ =~= replace_crlf(s@));
    let mut r: Vec<char> = Vec::new();
    let mut j: usize = 0;
    while j < a.len()
        invariant
            j <= a@.len(),
            r@ == replace_cr(a@.take(j as int)),
        decreases a@.len() - j,
    {
        let c = a[j];
        r.push(if c == '\r' { '\n' } else { c });
        j = j + 1;
        assert(r@ =~= replace_cr(a@.take(j as int)));
    }
    assert(a@.take(a@.len() as int) =~= a@);
    r
}

/// The lexer's state while it joins continued lines and marks comments.
pub struct NormState {
    pub result: Seq<char>,
    pub line: Seq<char>,
    pub in_string: bool,
    pub in_btw: bool,
    pub in_obtw: bool,
}

/// Whether `s` holds the characters `a`, `b`, `c` right after index `i`.
pub open spec fn next_three(s: Seq<char>, i: int, a: char, b: char, c: char) -> bool {
    i + 3 < s.len() && s[i + 1] == a && s[i + 2] == b && s[i + 3] == c
}

/// Whether `s` holds the characters `a`, `b` right after index `i`.
pub open spec fn next_two(s: Seq<char>, i: int, a: char, b: char) -> bool {
    i + 2 < s.len() && s[i + 1] == a && s[i + 2] == b
}

/// One step over the character at `i`: the next state and the next index.
/// Outside strings and comments, `...` before a newline continues the line, a comma
/// ends a line, a tab is a space, `BTW` starts a comment to the end of the line, and
/// `OBTW` ... `TLDR` mark a block comment (kept, for the next pass to remove).
pub open spec fn norm_step(s: Seq<char>, i: int, st: NormState) -> (NormState, int) {
    let c = s[i];
    let plain = !st.in_string && !st.in_btw && !st.in_obtw;
    if c == '"' {
        if !st.in_btw && !st.in_obtw {
            (NormState { in_string: !st.in_string, line: st.line.push(c), ..st }, i + 1)
        } else {
            (st, i + 1)
        }
    } else if c == '\n' && plain {
        if ends_with(st.line, seq!['.', '.', '.']) {
            (NormState { line: st.line.take(st.line.len() - 3).push(' '), ..st }, i + 1)
        } else {
            (NormState {
                in_btw: false,
                result: st.result + st.line.push(c),
                line: seq![],
                ..st
            }, i + 1)
        }
    } else if c == '\n' && st.in_btw && !st.in_obtw {
        (NormState { in_btw: false, result: st.result.push(c), ..st }, i + 1)
    } else if c == ',' && plain {
        (NormState { result: st.result + st.line.push('\n'), line: seq![], ..st }, i + 1)
    } else if c == '\t' && plain {
        (NormState { line: st.line.push(' '), ..st }, i + 1)
    } else if c == 'B' && plain {
        if next_two(s, i, 'T', 'W') {
            (NormState { result: st.result + st.line, line: seq![], in_btw: true, ..st }, i + 3)
        } else {
            (NormState { line: st.line.push(c), ..st }, i + 1)
        }
    } else if c == 'O' && plain {
        if next_three(s, i, 'B', 'T', 'W') {
            (NormState { line: st.line + seq!['O', 'B', 'T', 'W'], in_obtw: true, ..st }, i + 4)
        } else {
            (NormState { line: st.line.push(c), ..st }, i + 1)
        }
    } else if c == 'T' && !st.in_string && !st.in_btw && st.in_obtw {
        if next_three(s, i, 'L', 'D', 'R') {
            (NormState { line: st.line + seq!['T', 'L', 'D', 'R'], in_obtw: false, ..st }, i + 4)
        } else {
            (st, i + 1)
        }
    } else {
        if !st.in_btw {
            (NormState { line: st.line.push(c), ..st }, i + 1)
        } else {
            (st, i + 1)
        }
    }
}

/// The state after stepping from index `i` to the end of `s`.
pub open spec fn norm_run(s: Seq<char>, i: int, st: NormState) -> NormState
    decreases s.len() - i,
{
    if i < 0 || i >= s.len() {
        st
    } else {
        let (next, j) = norm_step(s, i, st);
        if j > i {
            norm_run(s, j, next)
        } else {
            next
        }
    }
}

pub open spec fn norm_start() -> NormState {
    NormState { result: seq![], line: seq![], in_string: false, in_btw: false, in_obtw: false }
}

/// The text after the first pass: lines joined and split, line comments removed.
pub open spec fn normalise_pass(s: Seq<char>) -> Seq<char> {
    let st = norm_run(unify_newlines(s), 0, norm_start());
    st.result + st.line
}

/// What `normalise_source` gives: the first pass, then block comments removed.
pub open spec fn normalised(s: Seq<char>) -> Result<Seq<char>, AppErrorModel> {
    remove_obtw(normalise_pass(s))
}

fn push_all(r: &mut Vec<char>, s: &[char])
    ensures
        final(r)@ == old(r)@ + s@,
{
    append_chars(r, s)
}

fn at_is(s: &[char], k: usize, c: char) -> (r: bool)
    ensures
        r == (k < s@.len() && s@[k as int] == c),
{
    k < s.len() && s[k] == c
}

/// Prepares source text for tokenizing: uniform line endings, `...` continuations
/// joined, commas turned into line breaks, tabs into spaces, `BTW` comments and
/// `OBTW` ... `TLDR` comments removed, blank lines dropped. The errors are those of
/// `remove_obtw`.
pub fn normalise_source(source: String) -> (r: Result<String, AppError>)
    ensures
        r matches Ok(t) ==> normalised(source@) == Ok::<Seq<char>, AppErrorModel>(t@),
        r matches Err(e) ==> normalised(source@) == Err::<Seq<char>, AppErrorModel>(e@),
{
    let raw = chars_of(source.as_str());
    let s = unify_newlines_chars(raw.as_slice());
    let ghost t = s@;
    let mut result: Vec<char> = Vec::new();
    let mut line: Vec<char> = Vec::new();
    let mut in_string = false;
    let mut in_btw = false;
    let mut in_obtw = false;
    let mut i: usize = 0;
    while i < s.len()
        invariant
            t == s@,
            i <= s@.len(),
            norm_run(t, i as int, NormState { result: result@, line: line@, in_string, in_btw, in_obtw })
                == norm_run(t, 0, norm_start()),
        decreases s@.len() - i,
    {
        let ghost st = NormState { result: result@, line: line@, in_string, in_btw, in_obtw };
        let ghost stepped = norm_step(t, i as int, st);
        let c = s[i];
        let plain = !in_string && !in_btw && !in_obtw;
        if c == '"' {
            if !in_btw && !in_obtw {
                in_string = !in_string;
                line.push(c);
            }
            i = i + 1;
        } else if c == '\n' && plain {
            let n = line.len();
            if n >= 3 && line[n - 3] == '.' && line[n - 2] == '.' && line[n - 1] == '.' {
                assert(ends_with(line@, seq!['.', '.', '.'])) by {
                    assert(line@.skip(n - 3) =~= seq!['.', '.', '.']);
                }
                line.truncate(n - 3);
                line.push(' ');
                assert(line@ =~= stepped.0.line);
            } else {
                assert(!ends_with(line@, seq!['.', '.', '.'])) by {
                    if ends_with(line@, seq!['.', '.', '.']) {
                        assert(line@.skip(n - 3)[0] == line@[n - 3]);
                        assert(line@.skip(n - 3)[1] == line@[n - 2]);
                        assert(line@.skip(n - 3)[2] == line@[n - 1]);
                    }
                }
                in_btw = false;
                line.push(c);
                push_all(&mut result, line.as_slice());
                line = Vec::new();
                assert(line@ =~= Seq::<char>::empty());
            }
            i = i + 1;
        } else if c == '\n' && in_btw && !in_obtw {
            in_btw = false;
            result.push(c);
            i = i + 1;
        } else if c == ',' && plain {
            line.push('\n');
            push_all(&mut result, line.as_slice());
            line = Vec::new();
            assert(line@ =~= Seq::<char>::empty());
            i = i + 1;
        } else if c == '\t' && plain {
            line.push(' ');
            i = i + 1;
        } else if c == 'B' && plain {
            if at_is(s.as_slice(), i + 1, 'T') && at_is(s.as_slice(), i + 2, 'W') {
                push_all(&mut result, line.as_slice());
                line = Vec::new();
                assert(line@ =~= Seq::<char>::empty());
                in_btw = true;
                i = i + 3;
            } else {
                line.push(c);
                i = i + 1;
            }
        } else if c == 'O' && plain {
            if at_is(s.as_slice(), i + 1, 'B') && at_is(s.as_slice(), i + 2, 'T') && at_is(
                s.as_slice(),
                i + 3,
                'W',
            ) {
                line.push('O');
                line.push('B');
                line.push('T');
                line.push('W');
                assert(line@ =~= stepped.0.line);
                in_obtw = true;
                i = i + 4;
            } else {
                line.push(c);
                i = i + 1;
            }
        } else if c == 'T' && !in_string && !in_btw && in_obtw {
            if at_is(s.as_slice(), i + 1, 'L') && at_is(s.as_slice(), i + 2, 'D') && at_is(
                s.as_slice(),
                i + 3,
                'R',
            ) {
                line.push('T');
                line.push('L');
                line.push('D');
                line.push('R');
                assert(line@ =~= stepped.0.line);
                in_obtw = false;
                i = i + 4;
            } else {
                i = i + 1;
            }
        } else {
            if !in_btw {
                line.push(c);
            }
            i = i + 1;
        }
        assert(NormState { result: result@, line: line@, in_string, in_btw, in_obtw } == stepped.0);
        assert(i == stepped.1);
    }
    push_all(&mut result, line.as_slice());
    remove_obtw_commentary(result.as_slice())
}
/// The state of the block-comment pass within one line.
pub struct ObtwState {
    pub out: Seq<char>,
    pub in_string: bool,
    pub first_token: bool,
    pub passed_tldr: bool,
    pub in_obtw: bool,
}

/// One step of the block-comment pass over the character at `i` of a line: the next
/// state and index, or the error. Nothing may follow `TLDR` on its line; `OBTW` must
/// be the first token of its line and `TLDR` must close an `OBTW`; `BTW` drops the
/// rest of the line; text inside a block comment is dropped.
pub open spec fn obtw_step(l: Seq<char>, i: int, st: ObtwState) -> Result<(ObtwState, int), AppErrorModel> {
    let c = l[i];
    if st.passed_tldr {
        Err(AppErrorModel::TldrMustEndLine)
    } else if c == '"' && !st.in_obtw {
        Ok((ObtwState { in_string: !st.in_string, out: st.out.push(c), ..st }, i + 1))
    } else if c == 'B' && !st.in_string && !st.in_obtw {
        if next_two(l, i, 'T', 'W') {
            Ok((st, l.len() as int))
        } else {
            Ok((ObtwState { out: st.out.push(c), ..st }, i + 1))
        }
    } else if c == 'O' && !st.in_string && !st.in_obtw {
        if next_three(l, i, 'B', 'T', 'W') {
            if !st.first_token {
                Err(AppErrorModel::ObtwMustStartLine)
            } else {
                Ok((ObtwState { in_obtw: true, ..st }, i + 3))
            }
        } else {
            Ok((ObtwState { out: st.out.push(c), ..st }, i + 1))
        }
    } else if c == 'T' && !st.in_string {
        if next_three(l, i, 'L', 'D', 'R') {
            if !st.in_obtw {
                Err(AppErrorModel::TldrMustBeAfterObtw)
            } else {
                Ok((ObtwState { in_obtw: false, passed_tldr: true, ..st }, i + 4))
            }
        } else if !st.in_obtw {
            Ok((ObtwState { out: st.out.push(c), ..st }, i + 1))
        } else {
            Ok((st, i + 1))
        }
    } else if c == ' ' && !st.in_obtw {
        Ok((ObtwState { first_token: false, out: st.out.push(c), ..st }, i + 1))
    } else if c == '\n' && st.in_obtw {
        Ok((ObtwState { first_token: true, out: st.out.push(c), ..st }, i + 1))
    } else if !st.in_obtw {
        Ok((ObtwState { out: st.out.push(c), ..st }, i + 1))
    } else {
        Ok((st, i + 1))
    }
}

/// The block-comment pass over a line from index `i`.
pub open spec fn obtw_line(l: Seq<char>, i: int, st: ObtwState) -> Result<ObtwState, AppErrorModel>
    decreases l.len() - i,
{
    if i < 0 || i >= l.len() {
        Ok(st)
    } else {
        match obtw_step(l, i, st) {
            Err(e) => Err(e),
            Ok((next, j)) => if j > i {
                obtw_line(l, j, next)
            } else {
                Ok(next)
            },
        }
    }
}

pub open spec fn obtw_line_start(in_obtw: bool) -> ObtwState {
    ObtwState { out: seq![], in_string: false, first_token: true, passed_tldr: false, in_obtw }
}

/// The block-comment pass over the lines from `k` on, with `acc` the text kept so
/// far: each line is trimmed at its start, passed over, and kept (trimmed at its end,
/// with a newline) unless nothing but white space is left of it.
pub open spec fn obtw_lines(ls: Seq<Seq<char>>, k: int, in_obtw: bool, acc: Seq<char>) -> Result<Seq<char>, AppErrorModel>
    decreases ls.len() - k,
{
    if k < 0 || k >= ls.len() {
        Ok(acc)
    } else {
        match obtw_line(trim_start(ls[k]), 0, obtw_line_start(in_obtw)) {
            Err(e) => Err(e),
            Ok(st) => {
                let kept = if trim(st.out).len() > 0 {
                    acc + trim_end(st.out).push('\n')
                } else {
                    acc
                };
                obtw_lines(ls, k + 1, st.in_obtw, kept)
            },
        }
    }
}

/// Removing block comments from the lines of a text.
pub open spec fn remove_obtw(s: Seq<char>) -> Result<Seq<char>, AppErrorModel> {
    obtw_lines(lines(s), 0, false, seq![])
}

/// The block-comment pass over one (start-trimmed) line.
fn obtw_pass_line(l: &[char], in_obtw_start: bool) -> (r: Result<(Vec<char>, bool), AppError>)
    ensures
        r matches Ok((out, b)) ==> obtw_line(l@, 0, obtw_line_start(in_obtw_start)) == Ok::<ObtwState, AppErrorModel>(
            ObtwState { out: out@, in_obtw: b, ..obtw_line(l@, 0, obtw_line_start(in_obtw_start))->Ok_0 },
        ),
        r matches Err(e) ==> obtw_line(l@, 0, obtw_line_start(in_obtw_start)) == Err::<ObtwState, AppErrorModel>(e@),
{
    let mut out: Vec<char> = Vec::new();
    let mut in_string = false;
    let mut first_token = true;
    let mut passed_tldr = false;
    let mut in_obtw = in_obtw_start;
    let mut i: usize = 0;
    while i < l.len()
        invariant
            i <= l@.len(),
            obtw_line(l@, i as int, ObtwState { out: out@, in_string, first_token, passed_tldr, in_obtw })
                == obtw_line(l@, 0, obtw_line_start(in_obtw_start)),
        decreases l@.len() - i,
    {
        let ghost st = ObtwState { out: out@, in_string, first_token, passed_tldr, in_obtw };
        let ghost stepped = obtw_step(l@, i as int, st);
        let c = l[i];
        if passed_tldr {
            return Err(AppError::TldrMustEndLine);
        } else if c == '"' && !in_obtw {
            in_string = !in_string;
            out.push(c);
            i = i + 1;
        } else if c == 'B' && !in_string && !in_obtw {
            if at_is(l, i + 1, 'T') && at_is(l, i + 2, 'W') {
                i = l.len();
            } else {
                out.push(c);
                i = i + 1;
            }
        } else if c == 'O' && !in_string && !in_obtw {
            if at_is(l, i + 1, 'B') && at_is(l, i + 2, 'T') && at_is(l, i + 3, 'W') {
                if !first_token {
                    return Err(AppError::ObtwMustStartLine);
                }
                in_obtw = true;
                i = i + 3;
            } else {
                out.push(c);
                i = i + 1;
            }
        } else if c == 'T' && !in_string {
            if at_is(l, i + 1, 'L') && at_is(l, i + 2, 'D') && at_is(l, i + 3, 'R') {
                if !in_obtw {
                    return Err(AppError::TldrMustBeAfterObtw);
                }
                in_obtw = false;
                passed_tldr = true;
                i = i + 4;
            } else {
                if !in_obtw {
                    out.push(c);
                }
                i = i + 1;
            }
        } else if c == ' ' && !in_obtw {
            first_token = false;
            out.push(c);
            i = i + 1;
        } else if c == '\n' && in_obtw {
            first_token = true;
            out.push(c);
            i = i + 1;
        } else {
            if !in_obtw {
                out.push(c);
            }
            i = i + 1;
        }
        assert(stepped == Ok::<(ObtwState, int), AppErrorModel>(
            (ObtwState { out: out@, in_string, first_token, passed_tldr, in_obtw }, i as int),
        ));
    }
    Ok((out, in_obtw))
}

/// Removes `OBTW` ... `TLDR` block comments line by line (see `remove_obtw`).
pub fn remove_obtw_commentary(source: &[char]) -> (r: Result<String, AppError>)
    ensures
        r matches Ok(t) ==> remove_obtw(source@) == Ok::<Seq<char>, AppErrorModel>(t@),
        r matches Err(e) ==> remove_obtw(source@) == Err::<Seq<char>, AppErrorModel>(e@),
{
    let ls = split_lines(source);
    let ghost lsv = views(ls@);
    let mut result: Vec<char> = Vec::new();
    let mut in_obtw = false;
    let mut k: usize = 0;
    while k < ls.len()
        invariant
            lsv == views(ls@),
            lsv == lines(source@),
            k <= ls@.len(),
            obtw_lines(lsv, k as int, in_obtw, result@) == remove_obtw(source@),
        decreases ls@.len() - k,
    {
        let line = trim_start_chars(ls[k].as_slice());
        assert(lsv[k as int] == ls@[k as int]@);
        match obtw_pass_line(line.as_slice(), in_obtw) {
            Err(e) => {
                return Err(e);
            },
            Ok((new_line, now_in_obtw)) => {
                let trimmed_start = trim_start_chars(new_line.as_slice());
                let trimmed = trim_end_chars(trimmed_start.as_slice());
                if trimmed.len() > 0 {
                    let kept = trim_end_chars(new_line.as_slice());
                    push_all(&mut result, kept.as_slice());
                    result.push('\n');
                }
                in_obtw = now_in_obtw;
            },
        }
        k = k + 1;
    }
    Ok(string_of(result.as_slice()))
}
/// The splitter's state: the words found, the word being read, and whether it is
/// inside a string.
pub struct SplitState {
    pub words: Seq<Seq<char>>,
    pub current: Seq<char>,
    pub in_string: bool,
}

/// Splits a line at spaces and tabs that are outside strings; quotes stay in the
/// words and no word is empty.
pub open spec fn split_run(s: Seq<char>, i: int, st: SplitState) -> SplitState
    decreases s.len() - i,
{
    if i < 0 || i >= s.len() {
        st
    } else {
        let c = s[i];
        let next = if c == '"' {
            SplitState { in_string: !st.in_string, current: st.current.push(c), ..st }
        } else if (c == ' ' || c == '\t') && !st.in_string {
            if st.current.len() > 0 {
                SplitState { words: st.words.push(st.current), current: seq![], ..st }
            } else {
                st
            }
        } else {
            SplitState { current: st.current.push(c), ..st }
        };
        split_run(s, i + 1, next)
    }
}

/// The words of a line.
pub open spec fn split_words(s: Seq<char>) -> Seq<Seq<char>> {
    let st = split_run(s, 0, SplitState { words: seq![], current: seq![], in_string: false });
    if st.current.len() > 0 {
        st.words.push(st.current)
    } else {
        st.words
    }
}

/// Splits a line into words at spaces and tabs outside YARN literals (see
/// `split_words`).
pub fn split_line(line: &[char]) -> (r: Vec<Vec<char>>)
    ensures
        views(r@) == split_words(line@),
{
    let mut raw: Vec<Vec<char>> = Vec::new();
    let mut current: Vec<char> = Vec::new();
    let mut in_string = false;
    let mut i: usize = 0;
    assert(views(raw@) =~= Seq::<Seq<char>>::empty());
    while i < line.len()
        invariant
            i <= line@.len(),
            split_run(line@, i as int, SplitState { words: views(raw@), current: current@, in_string })
                == split_run(line@, 0, SplitState { words: seq![], current: seq![], in_string: false }),
        decreases line@.len() - i,
    {
        let c = line[i];
        if c == '"' {
            in_string = !in_string;
            current.push(c);
        } else if (c == ' ' || c == '\t') && !in_string {
            if current.len() > 0 {
                let ghost old_raw = raw@;
                let ghost cur = current@;
                raw.push(current);
                current = Vec::new();
                assert(views(raw@) =~= views(old_raw).push(cur));
                assert(current@ =~= Seq::<char>::empty());
            }
        } else {
            current.push(c);
        }
        i = i + 1;
    }
    if current.len() > 0 {
        let ghost old_raw = raw@;
        let ghost cur = current@;
        raw.push(current);
        assert(views(raw@) =~= views(old_raw).push(cur));
    }
    raw
}

/// The tokens one word stands for, without a trailing `?` or `!` (which the caller
/// splits off): a quoted YARN, WIN, FAIL, NOOB, a NUMBR, a NUMBAR (one too large to be
/// brought to scale 0 is a number overflow), a keyword, else an identifier (which must
/// be valid).
pub open spec fn core_classify(w: Seq<char>) -> Result<Seq<TokenModel>, AppErrorModel> {
    if starts_with(w, seq!['"']) && ends_with(w, seq!['"']) {
        Ok(seq![TokenModel::Yarn(unescape(literal_body(w)))])
    } else if w == "WIN"@ {
        Ok(seq![TokenModel::Troof(true)])
    } else if w == "FAIL"@ {
        Ok(seq![TokenModel::Troof(false)])
    } else if w == "NOOB"@ {
        Ok(seq![TokenModel::Keyword(Keyword::Noob)])
    } else if parse_i64(w) is Some {
        Ok(seq![TokenModel::Numbr(parse_i64(w)->0)])
    } else if decimal_parse(w) is Some {
        if rescalable_to_zero(decimal_parse(w)->0) {
            Ok(seq![TokenModel::Numbar(decimal_parse(w)->0)])
        } else {
            Err(AppErrorModel::NumberOverflow)
        }
    } else if keyword_of(w) is Some {
        Ok(seq![TokenModel::Keyword(keyword_of(w)->0)])
    } else if is_valid_identifier(w) {
        Ok(seq![TokenModel::Identifier(w)])
    } else {
        Err(AppErrorModel::InvalidIdentifier(w))
    }
}

/// The tokens one word stands for: a trailing `?` or `!` becomes a token of its own
/// after the tokens of the rest of the word.
pub open spec fn classify(w: Seq<char>) -> Result<Seq<TokenModel>, AppErrorModel> {
    if ends_with(w, seq!['?']) {
        match core_classify(w.drop_last()) {
            Ok(ts) => Ok(ts.push(TokenModel::QuestionMark)),
            Err(e) => Err(e),
        }
    } else if ends_with(w, seq!['!']) {
        match core_classify(w.drop_last()) {
            Ok(ts) => Ok(ts.push(TokenModel::ExclamationMark)),
            Err(e) => Err(e),
        }
    } else {
        core_classify(w)
    }
}

fn text_is(word: &[char], lit: &str) -> (r: bool)
    ensures
        r == (word@ == lit@),
{
    let l = chars_of(lit);
    chars_eq(word, l.as_slice())
}

fn core_classify_token(word: &[char]) -> (r: Result<Vec<Token>, AppError>)
    ensures
        r matches Ok(ts) ==> core_classify(word@) == Ok::<Seq<TokenModel>, AppErrorModel>(token_views(ts@)),
        r matches Err(e) ==> core_classify(word@) == Err::<Seq<TokenModel>, AppErrorModel>(e@),
{
    let n = word.len();
    let mut r: Vec<Token> = Vec::new();
    if n >= 1 && word[0] == '"' && word[n - 1] == '"' {
        assert(starts_with(word@, seq!['"'])) by {
            assert(word@.take(1) =~= seq!['"']);
        }
        assert(ends_with(word@, seq!['"'])) by {
            assert(word@.skip(n - 1) =~= seq!['"']);
        }
        let y = Yarn::from_literal(string_of(word));
        let ghost yv = y@;
        r.push(Token::Yarn(y));
        assert(token_views(r@) =~= seq![TokenModel::Yarn(yv)]);
        return Ok(r);
    }
    assert(!(starts_with(word@, seq!['"']) && ends_with(word@, seq!['"']))) by {
        if starts_with(word@, seq!['"']) && ends_with(word@, seq!['"']) {
            assert(word@.take(1)[0] == word@[0]);
            assert(word@.skip(n - 1)[0] == word@[n - 1]);
        }
    }
    if text_is(word, "WIN") {
        r.push(Token::Troof(Troof::new(true)));
        assert(token_views(r@) =~= seq![TokenModel::Troof(true)]);
        return Ok(r);
    }
    if text_is(word, "FAIL") {
        r.push(Token::Troof(Troof::new(false)));
        assert(token_views(r@) =~= seq![TokenModel::Troof(false)]);
        return Ok(r);
    }
    if text_is(word, "NOOB") {
        r.push(Token::Keyword(Keyword::Noob));
        assert(token_views(r@) =~= seq![TokenModel::Keyword(Keyword::Noob)]);
        return Ok(r);
    }
    if let Some(v) = parse_i64_chars(word) {
        r.push(Token::Numbr(Numbr::new(v)));
        assert(token_views(r@) =~= seq![TokenModel::Numbr(v)]);
        return Ok(r);
    }
    if let Some(d) = Decimal::parse(word) {
        if !d.is_zero() && d.scale() == i64::MIN {
            return Err(AppError::NumberOverflow);
        }
        let n = Numbar::new(d);
        let ghost nv = n@;
        r.push(Token::Numbar(n));
        assert(token_views(r@) =~= seq![TokenModel::Numbar(nv)]);
        return Ok(r);
    }
    if let Some(k) = Keyword::from_chars(word) {
        r.push(Token::Keyword(k));
        assert(token_views(r@) =~= seq![TokenModel::Keyword(k)]);
        return Ok(r);
    }
    let id = Identifier::new(string_of(word))?;
    let ghost iv = id@;
    r.push(Token::Identifier(id));
    assert(token_views(r@) =~= seq![TokenModel::Identifier(iv)]);
    Ok(r)
}

fn classify_token(word: &[char]) -> (r: Result<Vec<Token>, AppError>)
    ensures
        r matches Ok(ts) ==> classify(word@) == Ok::<Seq<TokenModel>, AppErrorModel>(token_views(ts@)),
        r matches Err(e) ==> classify(word@) == Err::<Seq<TokenModel>, AppErrorModel>(e@),
{
    let n = word.len();
    if n >= 1 && (word[n - 1] == '?' || word[n - 1] == '!') {
        let q = word[n - 1] == '?';
        assert(ends_with(word@, seq![word@[n - 1]])) by {
            assert(word@.skip(n - 1) =~= seq![word@[n - 1]]);
        }
        assert(q ==> ends_with(word@, seq!['?']));
        assert(!q ==> !ends_with(word@, seq!['?'])) by {
            if ends_with(word@, seq!['?']) {
                assert(word@.skip(n - 1)[0] == word@[n - 1]);
            }
        }
        let mut rest: Vec<char> = Vec::new();
        let mut i: usize = 0;
        while i < n - 1
            invariant
                n == word@.len(),
                i <= n - 1,
                rest@ == word@.take(i as int),
            decreases n - 1 - i,
        {
            rest.push(word[i]);
            i = i + 1;
            assert(rest@ =~= word@.take(i as int));
        }
        assert(rest@ =~= word@.drop_last());
        let mut ts = core_classify_token(rest.as_slice())?;
        let ghost before = token_views(ts@);
        if q {
            ts.push(Token::QuestionMark);
            assert(token_views(ts@) =~= before.push(TokenModel::QuestionMark));
        } else {
            ts.push(Token::ExclamationMark);
            assert(token_views(ts@) =~= before.push(TokenModel::ExclamationMark));
        }
        Ok(ts)
    } else {
        assert(!ends_with(word@, seq!['?']) && !ends_with(word@, seq!['!'])) by {
            if n >= 1 {
                assert(word@.skip(n - 1)[0] == word@[n - 1]);
            }
        }
        core_classify_token(word)
    }
}

/// One step of joining adjacent YARNs: a YARN right after a YARN is appended to it.
pub open spec fn join_yarn(acc: Seq<TokenModel>, t: TokenModel) -> Seq<TokenModel> {
    match t {
        TokenModel::Yarn(s) => if acc.len() > 0 && acc.last() is Yarn {
            acc.drop_last().push(TokenModel::Yarn(acc.last()->Yarn_0 + s))
        } else {
            acc.push(t)
        },
        _ => acc.push(t),
    }
}

/// The tokens with every run of adjacent YARNs joined into one YARN.
pub open spec fn join_yarns(ts: Seq<TokenModel>) -> Seq<TokenModel>
    decreases ts.len(),
{
    if ts.len() == 0 {
        seq![]
    } else {
        join_yarn(join_yarns(ts.drop_last()), ts.last())
    }
}

fn concat_adjacent_yarns(tokens: Vec<Token>) -> (r: Vec<Token>)
    ensures
        token_views(r@) == join_yarns(token_views(tokens@)),
{
    let mut result: Vec<Token> = Vec::new();
    let ghost all = token_views(tokens@);
    let mut k: usize = 0;
    assert(all.take(0) =~= Seq::<TokenModel>::empty());
    assert(token_views(result@) =~= Seq::<TokenModel>::empty());
    while k < tokens.len()
        invariant
            all == token_views(tokens@),
            k <= tokens@.len(),
            token_views(result@) == join_yarns(all.take(k as int)),
        decreases tokens@.len() - k,
    {
        let token = tokens[k].copy();
        let ghost tv = token@;
        assert(tv == all[k as int]);
        assert(all.take(k + 1).drop_last() =~= all.take(k as int));
        assert(all.take(k + 1).last() == tv);
        let ghost acc = token_views(result@);
        match token {
            Token::Yarn(s) => {
                let n = result.len();
                if n > 0 && matches!(result[n - 1], Token::Yarn(_)) {
                    let last = result.pop().unwrap();
                    assert(token_views(result@) =~= acc.drop_last());
                    match last {
                        Token::Yarn(mut prev) => {
                            let ghost pv = prev@;
                            prev.concat(s);
                            result.push(Token::Yarn(prev));
                            assert(token_views(result@) =~= join_yarn(acc, tv));
                        },
                        other => {
                            result.push(other);
                        },
                    }
                } else {
                    result.push(Token::Yarn(s));
                    assert(token_views(result@) =~= join_yarn(acc, tv));
                }
            },
            other => {
                result.push(other);
                assert(token_views(result@) =~= join_yarn(acc, tv));
            },
        }
        k = k + 1;
    }
    assert(all.take(k as int) =~= all);
    result
}

/// The tokens of a line.
pub open spec fn tokenize(line: Seq<char>) -> Result<Seq<TokenModel>, AppErrorModel> {
    match classify_words(split_words(line), 0, seq![]) {
        Ok(ts) => Ok(join_yarns(ts)),
        Err(e) => Err(e),
    }
}

/// The tokens of the words from index `k` on, after `acc`; the first error stops.
pub open spec fn classify_words(ws: Seq<Seq<char>>, k: int, acc: Seq<TokenModel>) -> Result<Seq<TokenModel>, AppErrorModel>
    decreases ws.len() - k,
{
    if k < 0 || k >= ws.len() {
        Ok(acc)
    } else {
        match classify(ws[k]) {
            Ok(ts) => classify_words(ws, k + 1, acc + ts),
            Err(e) => Err(e),
        }
    }
}

/// Splits a line into tokens (see `tokenize`).
pub fn tokenize_line(line: &str) -> (r: Result<Vec<Token>, AppError>)
    ensures
        r matches Ok(ts) ==> tokenize(line@) == Ok::<Seq<TokenModel>, AppErrorModel>(token_views(ts@)),
        r matches Err(e) ==> tokenize(line@) == Err::<Seq<TokenModel>, AppErrorModel>(e@),
{
    let chars = chars_of(line);
    tokenize_chars(chars.as_slice())
}

/// Splits a line, given as characters, into tokens (see `tokenize`).
pub fn tokenize_chars(line: &[char]) -> (r: Result<Vec<Token>, AppError>)
    ensures
        r matches Ok(ts) ==> tokenize(line@) == Ok::<Seq<TokenModel>, AppErrorModel>(token_views(ts@)),
        r matches Err(e) ==> tokenize(line@) == Err::<Seq<TokenModel>, AppErrorModel>(e@),
{
    let raw_tokens = split_line(line);
    let ghost ws = views(raw_tokens@);
    let mut tokens: Vec<Token> = Vec::new();
    let mut k: usize = 0;
    assert(token_views(tokens@) =~= Seq::<TokenModel>::empty());
    while k < raw_tokens.len()
        invariant
            ws == views(raw_tokens@),
            ws == split_words(line@),
            k <= raw_tokens@.len(),
            classify_words(ws, k as int, token_views(tokens@)) == classify_words(ws, 0, seq![]),
        decreases raw_tokens@.len() - k,
    {
        assert(ws[k as int] == raw_tokens@[k as int]@);
        let more = classify_token(raw_tokens[k].as_slice())?;
        let ghost before = token_views(tokens@);
        let mut j: usize = 0;
        while j < more.len()
            invariant
                j <= more@.len(),
                token_views(tokens@) == before + token_views(more@).take(j as int),
            decreases more@.len() - j,
        {
            let ghost old_t = token_views(tokens@);
            let t = more[j].copy();
            tokens.push(t);
            assert(token_views(tokens@) =~= old_t.push(t@));
            assert(token_views(more@).take(j + 1) =~= token_views(more@).take(j as int).push(more@[j as int]@));
            j = j + 1;
            assert(token_views(tokens@) =~= before + token_views(more@).take(j as int));
        }
        assert(token_views(more@).take(more@.len() as int) =~= token_views(more@));
        k = k + 1;
    }
    Ok(concat_adjacent_yarns(tokens))
}

/// No two tokens in a row are YARNs.
pub open spec fn no_adjacent_yarns(ts: Seq<TokenModel>) -> bool {
    forall|i: int| 0 <= i < ts.len() - 1 ==> !(#[trigger] ts[i] is Yarn && ts[i + 1] is Yarn)
}

/// After joining, no two YARNs are adjacent.
pub proof fn law_joined_yarns_not_adjacent(ts: Seq<TokenModel>)
    ensures
        no_adjacent_yarns(join_yarns(ts)),
    decreases ts.len(),
{
    if ts.len() > 0 {
        let acc = join_yarns(ts.drop_last());
        law_joined_yarns_not_adjacent(ts.drop_last());
        let r = join_yarns(ts);
        let t = ts.last();
        assert(r == join_yarn(acc, t));
        if t is Yarn && acc.len() > 0 && acc.last() is Yarn {
            let d = acc.drop_last();
            assert forall|i: int| 0 <= i < r.len() - 1 implies !(#[trigger] r[i] is Yarn && r[i + 1] is Yarn) by {
                assert(r[i] == acc[i]);
                if i + 1 < d.len() {
                    assert(r[i + 1] == acc[i + 1]);
                } else {
                    assert(i == acc.len() - 2);
                    assert(acc[i + 1] is Yarn);
                }
            }
        } else {
            assert forall|i: int| 0 <= i < r.len() - 1 implies !(#[trigger] r[i] is Yarn && r[i + 1] is Yarn) by {
                assert(r[i] == acc[i]);
                if i + 1 < acc.len() {
                    assert(r[i + 1] == acc[i + 1]);
                }
            }
        }
    }
}

/// The tokens of a line never hold two YARNs in a row: adjacent YARN literals are
/// joined into one.
pub proof fn law_line_tokens_no_adjacent_yarns(line: Seq<char>)
    ensures
        tokenize(line) matches Ok(ts) ==> no_adjacent_yarns(ts),
{
    match classify_words(split_words(line), 0, seq![]) {
        Ok(ts) => law_joined_yarns_not_adjacent(ts),
        Err(_) => {},
    }
}


/// A text made of lines that each end with a newline, none of them blank and none
/// ending in white space.
pub open spec fn tidy_lines(t: Seq<char>) -> bool
    decreases t.len(),
{
    if t.len() == 0 {
        true
    } else {
        let i = find_char(t, '\n');
        proof {
            lemma_find_char(t, '\n');
        }
        if !(0 < i < t.len()) || is_white_space(t[i - 1]) {
            false
        } else {
            tidy_lines(t.skip(i + 1))
        }
    }
}

/// Whether a text has no newline.
pub open spec fn no_newline(s: Seq<char>) -> bool {
    forall|j: int| 0 <= j < s.len() ==> s[j] != '\n'
}

proof fn lemma_tidy_append(a: Seq<char>, l: Seq<char>)
    requires
        tidy_lines(a),
        l.len() > 0,
        !is_white_space(l.last()),
        no_newline(l),
    ensures
        tidy_lines(a + l.push('\n')),
    decreases a.len(),
{
    let x = l.push('\n');
    let t = a + x;
    if a.len() == 0 {
        assert(t =~= x);
        assert forall|j: int| 0 <= j < l.len() implies x[j] != '\n' by {
            assert(x[j] == l[j]);
        }
        lemma_find_char_unique(x, '\n', l.len() as int);
        assert(x[l.len() - 1] == l.last());
        assert(x.skip(l.len() as int + 1) =~= Seq::<char>::empty());
        assert(tidy_lines(x.skip(l.len() as int + 1)));
        assert(tidy_lines(x));
    } else {
        lemma_find_char(a, '\n');
        let i = find_char(a, '\n');
        assert(0 < i < a.len());
        assert(!is_white_space(a[i - 1]));
        assert(tidy_lines(a.skip(i + 1)));
        assert forall|j: int| 0 <= j < i implies t[j] != '\n' by {
            assert(t[j] == a[j]);
        }
        assert(t[i] == a[i]);
        lemma_find_char_unique(t, '\n', i);
        assert(t[i - 1] == a[i - 1]);
        lemma_tidy_append(a.skip(i + 1), l);
        assert(t.skip(i + 1) =~= a.skip(i + 1) + x);
        assert(tidy_lines(t.skip(i + 1)));
    }
}

proof fn lemma_trim_end_last(s: Seq<char>)
    ensures
        trim_end(s).len() <= s.len(),
        trim_end(s).len() > 0 ==> !is_white_space(trim_end(s).last()),
        trim_end(s).len() > 0 <==> exists|j: int| 0 <= j < s.len() && !is_white_space(#[trigger] s[j]),
        forall|j: int| 0 <= j < trim_end(s).len() ==> trim_end(s)[j] == s[j],
    decreases s.len(),
{
    if s.len() > 0 && is_white_space(s.last()) {
        let d = s.drop_last();
        lemma_trim_end_last(d);
        if exists|j: int| 0 <= j < s.len() && !is_white_space(#[trigger] s[j]) {
            let j = choose|j: int| 0 <= j < s.len() && !is_white_space(#[trigger] s[j]);
            assert(j < d.len());
            assert(d[j] == s[j]);
        }
        if exists|j: int| 0 <= j < d.len() && !is_white_space(#[trigger] d[j]) {
            let j = choose|j: int| 0 <= j < d.len() && !is_white_space(#[trigger] d[j]);
            assert(s[j] == d[j]);
        }
        assert forall|j: int| 0 <= j < trim_end(s).len() implies trim_end(s)[j] == s[j] by {
            assert(trim_end(s)[j] == d[j]);
            assert(d[j] == s[j]);
        }
    } else if s.len() > 0 {
        assert(!is_white_space(s[s.len() - 1]));
    }
}

proof fn lemma_trim_start_suffix(s: Seq<char>)
    ensures
        exists|k: int| 0 <= k <= s.len() && trim_start(s) == s.skip(k),
    decreases s.len(),
{
    if s.len() > 0 && is_white_space(s[0]) {
        lemma_trim_start_suffix(s.drop_first());
        let k = choose|k: int| 0 <= k <= s.drop_first().len() && trim_start(s.drop_first()) == s.drop_first().skip(k);
        assert(s.drop_first().skip(k) =~= s.skip(k + 1));
    } else {
        assert(s.skip(0) =~= s);
    }
}

/// The text kept of a line that has something left after trimming: it has no
/// newline (when the line has none), is not empty, and does not end in white space.
proof fn lemma_kept_line(out: Seq<char>)
    requires
        trim(out).len() > 0,
        no_newline(out),
    ensures
        trim_end(out).len() > 0,
        !is_white_space(trim_end(out).last()),
        no_newline(trim_end(out)),
{
    lemma_trim_start_suffix(out);
    let k = choose|k: int| 0 <= k <= out.len() && trim_start(out) == out.skip(k);
    let ts = trim_start(out);
    lemma_trim_end_last(ts);
    let j = choose|j: int| 0 <= j < ts.len() && !is_white_space(#[trigger] ts[j]);
    assert(ts[j] == out[k + j]);
    lemma_trim_end_last(out);
    assert forall|q: int| 0 <= q < trim_end(out).len() implies trim_end(out)[q] != '\n' by {
        assert(trim_end(out)[q] == out[q]);
    }
}

proof fn lemma_obtw_line_no_newline(l: Seq<char>, i: int, st: ObtwState)
    requires
        no_newline(l),
        no_newline(st.out),
    ensures
        obtw_line(l, i, st) matches Ok(r) ==> no_newline(r.out),
    decreases l.len() - i,
{
    if 0 <= i < l.len() {
        match obtw_step(l, i, st) {
            Ok((next, j)) => {
                assert(no_newline(next.out)) by {
                    assert forall|q: int| 0 <= q < next.out.len() implies next.out[q] != '\n' by {
                        if q < st.out.len() {
                            assert(next.out[q] == st.out[q]);
                        } else {
                            assert(next.out[q] == l[i]);
                        }
                    }
                }
                if j > i {
                    lemma_obtw_line_no_newline(l, j, next);
                }
            },
            Err(_) => {},
        }
    }
}

proof fn lemma_lines_no_newline(s: Seq<char>)
    ensures
        forall|k: int| 0 <= k < lines(s).len() ==> no_newline(#[trigger] lines(s)[k]),
    decreases s.len(),
{
    if s.len() > 0 {
        lemma_find_char(s, '\n');
        let i = find_char(s, '\n');
        let first = line_before(s, i);
        assert(no_newline(first)) by {
            assert forall|q: int| 0 <= q < first.len() implies first[q] != '\n' by {
                assert(first[q] == s[q]);
            }
        }
        if i < s.len() {
            lemma_lines_no_newline(s.skip(i + 1));
            assert forall|k: int| 0 <= k < lines(s).len() implies no_newline(#[trigger] lines(s)[k]) by {
                if k > 0 {
                    assert(lines(s)[k] == lines(s.skip(i + 1))[k - 1]);
                }
            }
        }
    }
}

proof fn lemma_obtw_lines_tidy(ls: Seq<Seq<char>>, k: int, in_obtw: bool, acc: Seq<char>)
    requires
        tidy_lines(acc),
        forall|q: int| 0 <= q < ls.len() ==> no_newline(#[trigger] ls[q]),
    ensures
        obtw_lines(ls, k, in_obtw, acc) matches Ok(t) ==> tidy_lines(t),
    decreases ls.len() - k,
{
    if 0 <= k < ls.len() {
        let l = trim_start(ls[k]);
        lemma_trim_start_suffix(ls[k]);
        let m = choose|m: int| 0 <= m <= ls[k].len() && trim_start(ls[k]) == ls[k].skip(m);
        assert(no_newline(l)) by {
            assert forall|q: int| 0 <= q < l.len() implies l[q] != '\n' by {
                assert(l[q] == ls[k][m + q]);
            }
        }
        lemma_obtw_line_no_newline(l, 0, obtw_line_start(in_obtw));
        match obtw_line(l, 0, obtw_line_start(in_obtw)) {
            Ok(st) => {
                if trim(st.out).len() > 0 {
                    lemma_kept_line(st.out);
                    lemma_tidy_append(acc, trim_end(st.out));
                    lemma_obtw_lines_tidy(ls, k + 1, st.in_obtw, acc + trim_end(st.out).push('\n'));
                } else {
                    lemma_obtw_lines_tidy(ls, k + 1, st.in_obtw, acc);
                }
            },
            Err(_) => {},
        }
    }
}

/// What the block-comment pass keeps is tidy: every line ends with a newline, and
/// no line is blank or ends in white space.
pub proof fn law_comment_pass_output_is_tidy(s: Seq<char>)
    ensures
        remove_obtw(s) matches Ok(t) ==> tidy_lines(t),
{
    lemma_lines_no_newline(s);
    lemma_obtw_lines_tidy(lines(s), 0, false, seq![]);
}

/// Normalised source is tidy: every line ends with a newline, and no line is blank
/// or ends in white space.
pub proof fn law_normalised_source_is_tidy(s: Seq<char>)
    ensures
        normalised(s) matches Ok(t) ==> tidy_lines(t),
{
    law_comment_pass_output_is_tidy(normalise_pass(s));
}

/// Text that holds none of what the normalising passes act on: no quote, comma,
/// tab or carriage return, and no `BTW`, `TLDR` or `...`.
pub open spec fn inert_text(t: Seq<char>) -> bool {
    &&& comment_free(t)
    &&& forall|p: int| 0 <= p < t.len() ==> t[p] != ',' && t[p] != '\t' && t[p] != '\r'
    &&& forall|p: int| 0 <= p < t.len() && t[p] == '.' ==> !next_two(t, p, '.', '.')
}

/// Text that holds nothing the block-comment pass acts on: no quote, and no `BTW`
/// or `TLDR` (so no `OBTW` either).
pub open spec fn comment_free(t: Seq<char>) -> bool {
    &&& forall|p: int| 0 <= p < t.len() ==> t[p] != '"'
    &&& forall|p: int| 0 <= p < t.len() && t[p] == 'B' ==> !next_two(t, p, 'T', 'W')
    &&& forall|p: int| 0 <= p < t.len() && t[p] == 'T' ==> !next_three(t, p, 'L', 'D', 'R')
}

/// Whether no line of `t` starts with white space.
pub open spec fn lines_start_solid(t: Seq<char>) -> bool {
    forall|p: int| 0 <= p < t.len() && (p == 0 || t[p - 1] == '\n') ==> !is_white_space(t[p])
}

/// Text that the block-comment pass keeps as it is: tidy lines that start with no
/// white space, and nothing for the pass to act on.
pub open spec fn kept_as_is(t: Seq<char>) -> bool {
    &&& tidy_lines(t)
    &&& comment_free(t)
    &&& lines_start_solid(t)
}

/// Text in normal form: tidy lines, none starting with white space, and inert.
pub open spec fn normal_form(t: Seq<char>) -> bool {
    &&& tidy_lines(t)
    &&& inert_text(t)
    &&& lines_start_solid(t)
}

proof fn lemma_replace_crlf_plain(t: Seq<char>)
    requires
        forall|p: int| 0 <= p < t.len() ==> t[p] != '\r',
    ensures
        replace_crlf(t) == t,
    decreases t.len(),
{
    if t.len() > 0 {
        let r = t.skip(1);
        assert forall|p: int| 0 <= p < r.len() implies r[p] != '\r' by {
            assert(r[p] == t[p + 1]);
        }
        lemma_replace_crlf_plain(r);
        assert(seq![t[0]] + r =~= t);
    }
}

/// The first pass over inert text, from a plain state whose line is the text since
/// the last newline, keeps every character.
proof fn lemma_norm_run_inert(t: Seq<char>, i: int, st: NormState)
    requires
        inert_text(t),
        0 <= i <= t.len(),
        !st.in_string && !st.in_btw && !st.in_obtw,
        st.result + st.line == t.take(i),
        st.line.len() <= i,
        no_newline(st.line),
    ensures
        norm_run(t, i, st).result + norm_run(t, i, st).line == t,
    decreases t.len() - i,
{
    if i >= t.len() {
        assert(t.take(i) =~= t);
    } else {
        let c = t[i];
        let (next, j) = norm_step(t, i, st);
        let l = st.line;
        assert(t.take(i + 1) =~= t.take(i).push(c));
        if c == 'O' && next_three(t, i, 'B', 'T', 'W') {
            assert(t[i + 1] == 'B' && next_two(t, i + 1, 'T', 'W'));
        }
        if c == '\n' && ends_with(l, seq!['.', '.', '.']) {
            let k = i - 3;
            assert(l.skip(l.len() - 3) =~= seq!['.', '.', '.']);
            assert(l[l.len() - 3] == '.');
            assert(t.take(i)[k] == l[l.len() - 3]);
            assert(t.take(i)[k + 1] == l[l.len() - 2]);
            assert(t.take(i)[k + 2] == l[l.len() - 1]);
            assert(t[k] == '.' && next_two(t, k, '.', '.'));
        }
        assert(j == i + 1);
        if c == '\n' {
            assert(next.result + next.line =~= t.take(i + 1));
            assert(next.line.len() == 0);
        } else {
            assert(next.line == l.push(c));
            assert(next.result + next.line =~= t.take(i + 1));
            assert(no_newline(next.line)) by {
                assert forall|q: int| 0 <= q < next.line.len() implies next.line[q] != '\n' by {
                    if q < l.len() {
                        assert(next.line[q] == l[q]);
                    }
                }
            }
        }
        lemma_norm_run_inert(t, i + 1, next);
    }
}

/// The first pass leaves inert text as it is.
proof fn lemma_normalise_pass_inert(t: Seq<char>)
    requires
        inert_text(t),
    ensures
        normalise_pass(t) == t,
{
    lemma_replace_crlf_plain(t);
    assert(replace_cr(t) =~= t);
    assert(t.take(0) =~= Seq::<char>::empty());
    assert(norm_start().result + norm_start().line =~= t.take(0));
    lemma_norm_run_inert(t, 0, norm_start());
}

/// The block-comment pass over an inert line, from a state outside comments and
/// strings that has kept all before `j`, keeps the whole line.
proof fn lemma_obtw_line_inert(l: Seq<char>, j: int, st: ObtwState)
    requires
        comment_free(l),
        no_newline(l),
        0 <= j <= l.len(),
        !st.in_string && !st.in_obtw && !st.passed_tldr,
        st.out == l.take(j),
    ensures
        obtw_line(l, j, st) matches Ok(r) && r.out == l && !r.in_obtw,
    decreases l.len() - j,
{
    if j >= l.len() {
        assert(l.take(j) =~= l);
    } else {
        let c = l[j];
        if c == 'O' && next_three(l, j, 'B', 'T', 'W') {
            assert(l[j + 1] == 'B' && next_two(l, j + 1, 'T', 'W'));
        }
        let next = obtw_step(l, j, st)->Ok_0.0;
        assert(obtw_step(l, j, st) is Ok);
        assert(obtw_step(l, j, st)->Ok_0.1 == j + 1);
        assert(next.out =~= l.take(j + 1));
        lemma_obtw_line_inert(l, j + 1, next);
    }
}

/// A part of inert text is inert.
/// A part of text with nothing for the block-comment pass to act on has nothing
/// either.
proof fn lemma_comment_free_subrange(t: Seq<char>, a: int, b: int)
    requires
        comment_free(t),
        0 <= a <= b <= t.len(),
    ensures
        comment_free(t.subrange(a, b)),
{
    let u = t.subrange(a, b);
    assert forall|p: int| 0 <= p < u.len() && u[p] == 'B' implies !next_two(u, p, 'T', 'W') by {
        assert(u[p] == t[a + p]);
        if next_two(u, p, 'T', 'W') {
            assert(u[p + 1] == t[a + p + 1] && u[p + 2] == t[a + p + 2]);
        }
    }
    assert forall|p: int| 0 <= p < u.len() && u[p] == 'T' implies !next_three(u, p, 'L', 'D', 'R') by {
        assert(u[p] == t[a + p]);
        if next_three(u, p, 'L', 'D', 'R') {
            assert(u[p + 1] == t[a + p + 1] && u[p + 2] == t[a + p + 2] && u[p + 3] == t[a + p + 3]);
        }
    }
    assert forall|p: int| 0 <= p < u.len() implies u[p] != '"' by {
        assert(u[p] == t[a + p]);
    }
}

proof fn lemma_obtw_lines_kept(t: Seq<char>, ls: Seq<Seq<char>>, k: int, acc: Seq<char>)
    requires
        kept_as_is(t),
        0 <= k <= ls.len(),
        ls.skip(k) == lines(t),
    ensures
        obtw_lines(ls, k, false, acc) == Ok::<Seq<char>, AppErrorModel>(acc + t),
    decreases t.len(),
{
    if t.len() == 0 {
        assert(ls.skip(k).len() == 0);
        assert(acc + t =~= acc);
    } else {
        let i = find_char(t, '\n');
        lemma_find_char(t, '\n');
        assert(0 < i < t.len());
        let l = t.take(i);
        assert(line_before(t, i) == l);
        let rest = t.skip(i + 1);
        assert(ls.skip(k) == seq![l] + lines(rest));
        assert(ls[k] == ls.skip(k)[0]);
        assert(ls[k] == l);
        assert(ls.skip(k + 1) =~= ls.skip(k).skip(1));
        assert(ls.skip(k + 1) =~= lines(rest));
        lemma_comment_free_subrange(t, 0, i);
        assert(t.subrange(0, i) =~= l);
        assert(no_newline(l));
        assert(!is_white_space(l[0]));
        assert(trim_start(l) == l);
        assert(l.take(0) =~= Seq::<char>::empty());
        lemma_obtw_line_inert(l, 0, obtw_line_start(false));
        assert(!is_white_space(l.last()));
        assert(trim_end(l) == l);
        assert(trim(l) == l);
        let kept = acc + l.push('\n');
        assert(obtw_lines(ls, k, false, acc) == obtw_lines(ls, k + 1, false, kept));
        lemma_comment_free_subrange(t, i + 1, t.len() as int);
        assert(t.subrange(i + 1, t.len() as int) =~= rest);
        assert forall|p: int| 0 <= p < rest.len() && (p == 0 || rest[p - 1] == '\n') implies !is_white_space(rest[p]) by {
            assert(rest[p] == t[i + 1 + p]);
            if p > 0 {
                assert(rest[p - 1] == t[i + p]);
            }
        }
        assert(kept_as_is(rest));
        lemma_obtw_lines_kept(rest, ls, k + 1, kept);
        assert(kept + rest =~= acc + t);
    }
}

/// Text in normal form is left as it is by normalising.
pub proof fn law_normal_form_unchanged(t: Seq<char>)
    requires
        normal_form(t),
    ensures
        normalised(t) == Ok::<Seq<char>, AppErrorModel>(t),
{
    lemma_normalise_pass_inert(t);
    assert(lines(t).skip(0) =~= lines(t));
    lemma_obtw_lines_kept(t, lines(t), 0, seq![]);
    assert(Seq::<char>::empty() + t =~= t);
}

/// No quote in a text.
pub open spec fn quote_free(t: Seq<char>) -> bool {
    forall|p: int| 0 <= p < t.len() ==> t[p] != '"'
}

/// No position before `i` of `l` starts a `BTW`, `OBTW` or `TLDR`.
spec fn plain_upto(l: Seq<char>, i: int) -> bool {
    forall|q: int|
        0 <= q < i ==> !(l[q] == 'B' && next_two(l, q, 'T', 'W')) && !(l[q] == 'O' && next_three(l, q, 'B', 'T', 'W'))
            && !(l[q] == 'T' && next_three(l, q, 'L', 'D', 'R'))
}

proof fn lemma_trim_start_first(s: Seq<char>)
    ensures
        trim_start(s).len() > 0 ==> !is_white_space(trim_start(s)[0]),
    decreases s.len(),
{
    if s.len() > 0 && is_white_space(s[0]) {
        lemma_trim_start_first(s.drop_first());
    }
}

/// Inside a block comment the pass keeps nothing more of the line.
proof fn lemma_obtw_line_in_comment(l: Seq<char>, i: int, st: ObtwState)
    requires
        no_newline(l),
        0 <= i,
        st.in_obtw,
        !st.in_string,
        !st.passed_tldr,
    ensures
        obtw_line(l, i, st) matches Ok(fin) ==> fin.out == st.out,
    decreases l.len() - i,
{
    if i < l.len() {
        let c = l[i];
        if c == 'T' && next_three(l, i, 'L', 'D', 'R') {
            let st2 = ObtwState { in_obtw: false, passed_tldr: true, ..st };
            assert(obtw_step(l, i, st) == Ok::<(ObtwState, int), AppErrorModel>((st2, i + 4)));
            assert(obtw_line(l, i, st) == obtw_line(l, i + 4, st2));
            if i + 4 < l.len() {
                assert(obtw_step(l, i + 4, st2) is Err);
                assert(obtw_line(l, i + 4, st2) is Err);
            } else {
                assert(obtw_line(l, i + 4, st2) == Ok::<ObtwState, AppErrorModel>(st2));
            }
        } else {
            assert(c != '\n');
            assert(obtw_step(l, i, st) == Ok::<(ObtwState, int), AppErrorModel>((st, i + 1)));
            lemma_obtw_line_in_comment(l, i + 1, st);
        }
    }
}

/// Outside a comment, over a line without quotes, the pass keeps the line up to the
/// first `BTW`, `OBTW` or `TLDR` (or all of it), and nothing after.
proof fn lemma_obtw_line_plain(l: Seq<char>, i: int, st: ObtwState)
    requires
        no_newline(l),
        quote_free(l),
        0 <= i <= l.len(),
        !st.in_obtw,
        !st.in_string,
        !st.passed_tldr,
        st.out == l.take(i),
        plain_upto(l, i),
    ensures
        obtw_line(l, i, st) matches Ok(fin) ==> exists|p: int| 0 <= p <= l.len() && fin.out == l.take(p) && plain_upto(l, p),
    decreases l.len() - i,
{
    if i >= l.len() {
        assert(obtw_line(l, i, st) == Ok::<ObtwState, AppErrorModel>(st));
    } else {
        let c = l[i];
        assert(c != '"' && c != '\n');
        if c == 'B' && next_two(l, i, 'T', 'W') {
            assert(obtw_step(l, i, st) == Ok::<(ObtwState, int), AppErrorModel>((st, l.len() as int)));
            assert(obtw_line(l, l.len() as int, st) == Ok::<ObtwState, AppErrorModel>(st));
            assert(obtw_line(l, i, st) == Ok::<ObtwState, AppErrorModel>(st));
        } else if c == 'O' && next_three(l, i, 'B', 'T', 'W') {
            if st.first_token {
                let st2 = ObtwState { in_obtw: true, ..st };
                assert(obtw_step(l, i, st) == Ok::<(ObtwState, int), AppErrorModel>((st2, i + 3)));
                lemma_obtw_line_in_comment(l, i + 3, st2);
            }
        } else if c == 'T' && next_three(l, i, 'L', 'D', 'R') {
        } else {
            let next = obtw_step(l, i, st)->Ok_0.0;
            assert(obtw_step(l, i, st) is Ok);
            assert(obtw_step(l, i, st)->Ok_0.1 == i + 1);
            assert(next.out =~= l.take(i + 1));
            assert(!next.in_obtw && !next.in_string && !next.passed_tldr);
            assert(plain_upto(l, i + 1));
            lemma_obtw_line_plain(l, i + 1, next);
        }
    }
}

/// A line that the pass keeps, from a line without quotes, is one it would keep as it
/// is: it starts and ends with no white space and has nothing for the pass to act on.
proof fn lemma_kept_line_clean(l: Seq<char>, b: bool)
    requires
        no_newline(l),
        quote_free(l),
        obtw_line(trim_start(l), 0, obtw_line_start(b)) matches Ok(st) && trim(st.out).len() > 0,
    ensures
        ({
            let st = obtw_line(trim_start(l), 0, obtw_line_start(b))->Ok_0;
            let kept = trim_end(st.out);
            &&& kept.len() > 0
            &&& no_newline(kept)
            &&& !is_white_space(kept[0])
            &&& !is_white_space(kept.last())
            &&& comment_free(kept)
        }),
{
    let lt = trim_start(l);
    lemma_trim_start_suffix(l);
    let m = choose|m: int| 0 <= m <= l.len() && trim_start(l) == l.skip(m);
    assert(no_newline(lt) && quote_free(lt)) by {
        assert forall|q: int| 0 <= q < lt.len() implies lt[q] != '\n' && lt[q] != '"' by {
            assert(lt[q] == l[m + q]);
        }
    }
    let st = obtw_line(lt, 0, obtw_line_start(b))->Ok_0;
    if b {
        lemma_obtw_line_in_comment(lt, 0, obtw_line_start(b));
        assert(st.out.len() == 0);
        assert(trim_start(st.out) == st.out);
        assert(trim_end(st.out) == st.out);
        assert(false);
    }
    assert(lt.take(0) =~= Seq::<char>::empty());
    lemma_obtw_line_plain(lt, 0, obtw_line_start(b));
    let p = choose|p: int| 0 <= p <= lt.len() && st.out == lt.take(p) && plain_upto(lt, p);
    let out = st.out;
    lemma_obtw_line_no_newline(lt, 0, obtw_line_start(b));
    lemma_kept_line(out);
    let kept = trim_end(out);
    lemma_trim_end_last(out);
    assert(kept.len() <= out.len());
    assert(kept =~= lt.take(kept.len() as int)) by {
        assert forall|q: int| 0 <= q < kept.len() implies kept[q] == lt.take(kept.len() as int)[q] by {
            assert(kept[q] == out[q]);
        }
    }
    lemma_trim_start_first(l);
    assert(kept[0] == lt[0]);
    assert(comment_free(kept)) by {
        let n = kept.len() as int;
        assert forall|q: int| 0 <= q < n implies kept[q] != '"' by {
            assert(kept[q] == lt[q]);
        }
        assert forall|q: int| 0 <= q < n && kept[q] == 'B' implies !next_two(kept, q, 'T', 'W') by {
            if next_two(kept, q, 'T', 'W') {
                assert(kept[q] == lt[q] && kept[q + 1] == lt[q + 1] && kept[q + 2] == lt[q + 2]);
                assert(q < p);
            }
        }
        assert forall|q: int| 0 <= q < n && kept[q] == 'T' implies !next_three(kept, q, 'L', 'D', 'R') by {
            if next_three(kept, q, 'L', 'D', 'R') {
                assert(kept[q] == lt[q] && kept[q + 1] == lt[q + 1] && kept[q + 2] == lt[q + 2] && kept[q + 3] == lt[q + 3]);
                assert(q < p);
            }
        }
    }
}

/// A kept line added to text that the pass keeps as it is gives such text again.
proof fn lemma_append_kept(a: Seq<char>, l: Seq<char>)
    requires
        kept_as_is(a),
        a.len() == 0 || a.last() == '\n',
        l.len() > 0,
        no_newline(l),
        !is_white_space(l[0]),
        !is_white_space(l.last()),
        comment_free(l),
    ensures
        kept_as_is(a + l.push('\n')),
{
    let x = l.push('\n');
    let t = a + x;
    let n = a.len() as int;
    lemma_tidy_append(a, l);
    assert forall|q: int| 0 <= q < t.len() implies t[q] != '"' by {
        if q < n {
            assert(t[q] == a[q]);
        } else if q < n + l.len() {
            assert(t[q] == l[q - n]);
        }
    }
    assert forall|q: int| 0 <= q < t.len() && t[q] == 'B' implies !next_two(t, q, 'T', 'W') by {
        if next_two(t, q, 'T', 'W') {
            if q + 2 < n {
                assert(t[q] == a[q] && t[q + 1] == a[q + 1] && t[q + 2] == a[q + 2]);
            } else if q >= n && q + 2 < n + l.len() {
                assert(t[q] == l[q - n] && t[q + 1] == l[q - n + 1] && t[q + 2] == l[q - n + 2]);
            } else if q < n {
                assert(t[n - 1] == a[n - 1]);
            } else {
                assert(t[n + l.len()] == '\n');
            }
        }
    }
    assert forall|q: int| 0 <= q < t.len() && t[q] == 'T' implies !next_three(t, q, 'L', 'D', 'R') by {
        if next_three(t, q, 'L', 'D', 'R') {
            if q + 3 < n {
                assert(t[q] == a[q] && t[q + 1] == a[q + 1] && t[q + 2] == a[q + 2] && t[q + 3] == a[q + 3]);
            } else if q >= n && q + 3 < n + l.len() {
                assert(t[q] == l[q - n] && t[q + 1] == l[q - n + 1] && t[q + 2] == l[q - n + 2] && t[q + 3] == l[q - n + 3]);
            } else if q < n {
                assert(t[n - 1] == a[n - 1]);
            } else {
                assert(t[n + l.len()] == '\n');
            }
        }
    }
    assert forall|q: int| 0 <= q < t.len() && (q == 0 || t[q - 1] == '\n') implies !is_white_space(t[q]) by {
        if q < n {
            assert(t[q] == a[q]);
            if q > 0 {
                assert(t[q - 1] == a[q - 1]);
            }
        } else if q == n {
            assert(t[q] == l[0]);
            if q > 0 {
                assert(t[q - 1] == a[n - 1]);
            }
        } else {
            assert(t[q - 1] == l[q - 1 - n]);
        }
    }
}

/// What the pass keeps of lines without quotes it would keep as it is.
proof fn lemma_obtw_lines_kept_out(ls: Seq<Seq<char>>, k: int, in_obtw: bool, acc: Seq<char>)
    requires
        kept_as_is(acc),
        acc.len() == 0 || acc.last() == '\n',
        forall|q: int| 0 <= q < ls.len() ==> no_newline(#[trigger] ls[q]) && quote_free(ls[q]),
    ensures
        obtw_lines(ls, k, in_obtw, acc) matches Ok(t) ==> kept_as_is(t),
    decreases ls.len() - k,
{
    if 0 <= k < ls.len() {
        let l = trim_start(ls[k]);
        assert(no_newline(ls[k]) && quote_free(ls[k]));
        match obtw_line(l, 0, obtw_line_start(in_obtw)) {
            Ok(st) => {
                if trim(st.out).len() > 0 {
                    lemma_kept_line_clean(ls[k], in_obtw);
                    let kept = trim_end(st.out);
                    lemma_append_kept(acc, kept);
                    let next = acc + kept.push('\n');
                    assert(next.last() == '\n');
                    lemma_obtw_lines_kept_out(ls, k + 1, st.in_obtw, next);
                } else {
                    lemma_obtw_lines_kept_out(ls, k + 1, st.in_obtw, acc);
                }
            },
            Err(_) => {},
        }
    }
}

proof fn lemma_lines_quote_free(s: Seq<char>)
    requires
        quote_free(s),
    ensures
        forall|k: int| 0 <= k < lines(s).len() ==> quote_free(#[trigger] lines(s)[k]),
    decreases s.len(),
{
    if s.len() > 0 {
        lemma_find_char(s, '\n');
        let i = find_char(s, '\n');
        let first = line_before(s, i);
        assert(quote_free(first)) by {
            assert forall|q: int| 0 <= q < first.len() implies first[q] != '"' by {
                assert(first[q] == s[q]);
            }
        }
        if i < s.len() {
            let rest = s.skip(i + 1);
            assert(quote_free(rest)) by {
                assert forall|q: int| 0 <= q < rest.len() implies rest[q] != '"' by {
                    assert(rest[q] == s[i + 1 + q]);
                }
            }
            lemma_lines_quote_free(rest);
            assert forall|k: int| 0 <= k < lines(s).len() implies quote_free(#[trigger] lines(s)[k]) by {
                if k > 0 {
                    assert(lines(s)[k] == lines(rest)[k - 1]);
                }
            }
        }
    }
}

/// Removing block comments twice changes nothing, for text without quotes: what the
/// pass keeps is tidy, starts each line with no white space, and holds no `BTW`,
/// `OBTW` or `TLDR` for a second pass to act on.
pub proof fn law_comment_pass_idempotent(s: Seq<char>)
    requires
        quote_free(s),
    ensures
        remove_obtw(s) matches Ok(t) ==> remove_obtw(t) == Ok::<Seq<char>, AppErrorModel>(t),
{
    lemma_lines_no_newline(s);
    lemma_lines_quote_free(s);
    assert(kept_as_is(Seq::<char>::empty())) by {
        assert(tidy_lines(Seq::<char>::empty()));
    }
    lemma_obtw_lines_kept_out(lines(s), 0, false, seq![]);
    if remove_obtw(s) is Ok {
        let t = remove_obtw(s)->Ok_0;
        assert(lines(t).skip(0) =~= lines(t));
        lemma_obtw_lines_kept(t, lines(t), 0, seq![]);
        assert(Seq::<char>::empty() + t =~= t);
    }
}

} // verus!
