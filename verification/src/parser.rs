//! Turning lines of tokens into statements. A statement may take the lines that
//! follow its own (a function body, an `O RLY?` block): the lines are given as a
//! slice with the index of the next unread line.

use vstd::prelude::*;
use crate::app_error::{AppError, AppErrorModel};
use crate::expression::{Expr, ExprModel, IdentModel, IdentifierExpr, expr_of_token, expr_views, is_kw, lemma_expr_views, parse_expr, parse_ident, tokens_from};
use crate::types::identifier::Identifier;
use crate::keywords::Keyword;
use crate::lexer::{Token, TokenModel, Tokens, token_views, tokenize, tokenize_chars};
use crate::statement::{MebbeBlock, MebbeModel, ORlyBlock, Statement, StatementModel, ident_views, lemma_mebbe_views, lemma_stmt_views, mebbe_views, o_rly_view, opt_stmt_view, stmt_views};
use crate::text::views;
use crate::evaluation::{default_of, eval, interpolate_from};
use crate::expression::CastTypes;
use crate::types::ValueModel;
use crate::types::primitive::{Numbar, Numbr, Troof, Yarn};

verus! {

/// A copy of the tokens in `[a, b)`.
fn copy_range(ts: &[Token], a: usize, b: usize) -> (r: Vec<Token>)
    requires
        a <= b <= ts@.len(),
    ensures
        token_views(r@) == token_views(ts@).subrange(a as int, b as int),
{
    let mut v: Vec<Token> = Vec::new();
    let mut k: usize = a;
    while k < b
        invariant
            a <= k <= b <= ts@.len(),
            token_views(v@) == token_views(ts@).subrange(a as int, k as int),
        decreases b - k,
    {
        let ghost old_v = token_views(v@);
        let t = ts[k].copy();
        v.push(t);
        assert(token_views(v@) =~= old_v.push(t@));
        k = k + 1;
        assert(token_views(v@) =~= token_views(ts@).subrange(a as int, k as int));
    }
    v
}

fn tok_is(ts: &[Token], j: usize, k: Keyword) -> (r: bool)
    ensures
        r == is_kw(token_views(ts@), j as int, k),
{
    j < ts.len() && ts[j].is_keyword(k)
}

/// `CAN HAS <name> ?`.
pub open spec fn can_has(ts: Seq<TokenModel>) -> Result<StatementModel, AppErrorModel> {
    if ts.len() <= 2 || ts.last() != TokenModel::QuestionMark {
        Err(AppErrorModel::CanHasMustEndQuestionMark)
    } else {
        let it = ts.subrange(2, ts.len() - 1);
        match parse_ident(it, 0) {
            Err(e) => Err(e),
            Ok((id, c)) => if c != it.len() {
                Err(AppErrorModel::InvalidIdentifierExpr(ts))
            } else {
                Ok(StatementModel::CanHasLib(id))
            },
        }
    }
}

/// The expressions of `VISIBLE`, from offset `off` of `sl`; `AN` between them is
/// skipped.
pub open spec fn visible_exprs(sl: Seq<TokenModel>, off: int, acc: Seq<ExprModel>) -> Result<Seq<ExprModel>, AppErrorModel>
    decreases sl.len() - off,
{
    if off < 0 || off >= sl.len() {
        Ok(acc)
    } else if sl[off] == TokenModel::Keyword(Keyword::An) {
        visible_exprs(sl, off + 1, acc)
    } else {
        match parse_expr(sl, off) {
            Err(e) => Err(e),
            Ok((e, c)) => if 0 < c <= sl.len() - off {
                visible_exprs(sl, off + c, acc.push(e))
            } else {
                Ok(acc.push(e))
            },
        }
    }
}

/// `VISIBLE <expr> [AN] <expr> ... [!]`: a trailing `!` means no newline.
pub open spec fn visible(ts: Seq<TokenModel>) -> Result<StatementModel, AppErrorModel> {
    let rest = ts.skip(1);
    let no_new_line = rest.len() > 0 && rest.last() == TokenModel::ExclamationMark;
    let sl = if no_new_line {
        rest.drop_last()
    } else {
        rest
    };
    match visible_exprs(sl, 0, seq![]) {
        Err(e) => Err(e),
        Ok(es) => if es.len() == 0 {
            Err(AppErrorModel::VisibleMustHaveAnArg)
        } else {
            Ok(StatementModel::Visible(es, no_new_line))
        },
    }
}

/// The initial value of `I HAS A <name> ITZ [A] ...` at index `i`: a type keyword
/// gives that type's default, else an expression.
pub open spec fn initial_value(ts: Seq<TokenModel>, i: int) -> Result<(ExprModel, int), AppErrorModel> {
    if i < 0 || i >= ts.len() {
        Err(AppErrorModel::UnexpectedEOF)
    } else if ts[i] == TokenModel::Keyword(Keyword::Yarn) {
        Ok((ExprModel::Yarn(seq![]), 1))
    } else if ts[i] == TokenModel::Keyword(Keyword::Troof) {
        Ok((ExprModel::Troof(false), 1))
    } else if ts[i] == TokenModel::Keyword(Keyword::Numbar) {
        Ok((ExprModel::Numbar((0int, 0int)), 1))
    } else if ts[i] == TokenModel::Keyword(Keyword::Numbr) {
        Ok((ExprModel::Numbr(0), 1))
    } else if ts[i] == TokenModel::Keyword(Keyword::Noob) {
        Ok((ExprModel::Noob, 1))
    } else {
        parse_expr(ts, i)
    }
}

/// `I HAS [A] <name> [ITZ [A] <init>]`; without `ITZ` the variable is NOOB, and
/// nothing may follow.
pub open spec fn i_has_a(ts: Seq<TokenModel>) -> Result<StatementModel, AppErrorModel> {
    let i0 = if is_kw(ts, 2, Keyword::A) {
        3int
    } else {
        2int
    };
    match parse_ident(ts, i0) {
        Err(e) => Err(e),
        Ok((var, c)) => {
            let i1 = i0 + c;
            if is_kw(ts, i1, Keyword::Itz) {
                let i2 = if is_kw(ts, i1 + 1, Keyword::A) {
                    i1 + 2
                } else {
                    i1 + 1
                };
                match initial_value(ts, i2) {
                    Err(e) => Err(e),
                    Ok((init, c2)) => if i2 + c2 != ts.len() {
                        Err(AppErrorModel::InvalidSyntax(ts))
                    } else {
                        Ok(StatementModel::IHasA(var, init))
                    },
                }
            } else if i1 != ts.len() {
                Err(AppErrorModel::InvalidSyntax(ts))
            } else {
                Ok(StatementModel::IHasA(var, ExprModel::Noob))
            }
        },
    }
}

/// The arguments of `I IZ <name> YR <expr> AN YR <expr> ... MKAY` from index `total`.
pub open spec fn iiz_params(ts: Seq<TokenModel>, total: int, acc: Seq<ExprModel>) -> Result<Seq<ExprModel>, AppErrorModel>
    decreases ts.len() - total,
{
    if total < 0 || total > ts.len() {
        Err(AppErrorModel::FunctionParseError)
    } else {
        match parse_expr(ts, total) {
            Err(e) => Err(e),
            Ok((p, c)) => {
                let t2 = total + c;
                if is_kw(ts, t2, Keyword::An) && c >= 0 {
                    iiz_params(ts, t2 + 1, acc.push(p))
                } else if is_kw(ts, t2, Keyword::Mkay) {
                    Ok(acc.push(p))
                } else {
                    Err(AppErrorModel::FunctionParseError)
                }
            },
        }
    }
}

/// `I IZ <name> [YR <expr> [AN YR <expr>] ...] MKAY`: a call whose result is dropped.
pub open spec fn i_iz(ts: Seq<TokenModel>) -> Result<StatementModel, AppErrorModel> {
    if ts.len() <= 2 || ts.last() != TokenModel::Keyword(Keyword::Mkay) {
        Err(AppErrorModel::FunctionArgumentsMustEndWithMkay)
    } else {
        match parse_ident(ts, 2) {
            Err(e) => Err(e),
            Ok((name, c)) => {
                let total = 2 + c;
                if total == ts.len() - 1 {
                    Ok(StatementModel::IIz(name, seq![]))
                } else if !is_kw(ts, total, Keyword::Yr) {
                    Err(AppErrorModel::FunctionParseError)
                } else if total + 1 < ts.len() {
                    match iiz_params(ts, total + 1, seq![]) {
                        Err(e) => Err(e),
                        Ok(ps) => Ok(StatementModel::IIz(name, ps)),
                    }
                } else {
                    Ok(StatementModel::IIz(name, seq![]))
                }
            },
        }
    }
}

/// The arguments after the first of `<var> R I IZ <f> YR <a> AN YR <b> ... MKAY`, from
/// offset `i` of `rest` (the tokens after `YR`): each `AN YR` and one token.
pub open spec fn call_args(ts: Seq<TokenModel>, rest: Seq<TokenModel>, i: int, acc: Seq<ExprModel>) -> Result<Seq<ExprModel>, AppErrorModel>
    decreases rest.len() - i,
{
    if i < 0 || i >= rest.len() || i + 3 > rest.len() {
        Ok(acc)
    } else if rest[i] == TokenModel::Keyword(Keyword::An) && rest[i + 1] == TokenModel::Keyword(Keyword::Yr) {
        match expr_of_token(rest[i + 2]) {
            Err(e) => Err(e),
            Ok(a) => call_args(ts, rest, i + 3, acc.push(a)),
        }
    } else {
        Err(AppErrorModel::IncorrectFunctionArguments(ts[4]->Identifier_0, ts))
    }
}

/// `<var> R I IZ <f> YR <a> [AN YR <b>] ... MKAY`: a call whose result goes into a
/// variable; each argument is a single token.
pub open spec fn var_r_call(ts: Seq<TokenModel>) -> Result<StatementModel, AppErrorModel> {
    let rest = ts.skip(6);
    let called = ts[4]->Identifier_0;
    if rest.len() == 0 {
        Err(AppErrorModel::IncorrectFunctionArguments(called, ts))
    } else {
        match expr_of_token(rest[0]) {
            Err(e) => Err(e),
            Ok(first) => match call_args(ts, rest, 1, seq![first]) {
                Err(e) => Err(e),
                Ok(args) => if rest.last() != TokenModel::Keyword(Keyword::Mkay) {
                    Err(AppErrorModel::FunctionArgumentsMustEndWithMkay)
                } else {
                    Ok(StatementModel::VarRIIzFunc(IdentModel::Identifier(ts[0]->Identifier_0), called, args))
                },
            },
        }
    }
}

/// `GIMMEH <name>`.
pub open spec fn gimmeh(ts: Seq<TokenModel>) -> Result<StatementModel, AppErrorModel> {
    match parse_ident(ts, 1) {
        Err(e) => Err(e),
        Ok((id, c)) => if c != ts.len() - 1 {
            Err(AppErrorModel::InvalidIdentifierExpr(ts))
        } else {
            Ok(StatementModel::Gimmeh(id))
        },
    }
}

/// Index of the first `R` keyword, or the length when there is none.
pub open spec fn find_r(ts: Seq<TokenModel>) -> int
    decreases ts.len(),
{
    if ts.len() == 0 {
        0
    } else if ts[0] == TokenModel::Keyword(Keyword::R) {
        0
    } else {
        1 + find_r(ts.drop_first())
    }
}

/// Any other line: `<name> R <expr>` (at the first `R`), else a whole-line
/// expression (which sets IT).
pub open spec fn other_line(ts: Seq<TokenModel>) -> Result<StatementModel, AppErrorModel> {
    let r = find_r(ts);
    if r < ts.len() {
        let lhs = ts.take(r);
        let rhs = ts.skip(r + 1);
        match parse_ident(lhs, 0) {
            Err(e) => Err(e),
            Ok((id, c)) => if c != lhs.len() {
                Err(AppErrorModel::InvalidIdentifierExpr(lhs))
            } else {
                match parse_expr(ts, r + 1) {
                    Err(e) => Err(e),
                    Ok((e, c2)) => if c2 != rhs.len() {
                        Err(AppErrorModel::InvalidExpression(rhs))
                    } else {
                        Ok(StatementModel::Rassignment(id, e))
                    },
                }
            },
        }
    } else {
        match parse_expr(ts, 0) {
            Ok((e, c)) => if c == ts.len() {
                Ok(StatementModel::Expr(e))
            } else {
                Err(AppErrorModel::LineParseError(ts))
            },
            Err(_) => Err(AppErrorModel::LineParseError(ts)),
        }
    }
}

/// What follows a line of an `O RLY?` block: a `MEBBE <expr>` line, `NO WAI`, or
/// `OIC`.
pub enum BoundaryModel {
    Mebbe(ExprModel),
    NoWai,
    Oic,
}

/// A statement result placed with the index of the next unread line.
pub open spec fn at_line(r: Result<StatementModel, AppErrorModel>, pos: int) -> Result<(Option<StatementModel>, int), AppErrorModel> {
    match r {
        Ok(s) => Ok((Some(s), pos)),
        Err(e) => Err(e),
    }
}

/// A block statement result (which read lines up to `p`) as a line result.
pub open spec fn block_line(r: Result<(StatementModel, int), AppErrorModel>) -> Result<(Option<StatementModel>, int), AppErrorModel> {
    match r {
        Ok((s, p)) => Ok((Some(s), p)),
        Err(e) => Err(e),
    }
}

/// Whether the line is `<var> R I IZ <f> YR ...`.
pub open spec fn is_var_r_call(ts: Seq<TokenModel>) -> bool {
    &&& ts.len() >= 6
    &&& ts[0] is Identifier
    &&& is_kw(ts, 1, Keyword::R)
    &&& is_kw(ts, 2, Keyword::I)
    &&& is_kw(ts, 3, Keyword::Iz)
    &&& ts[4] is Identifier
    &&& is_kw(ts, 5, Keyword::Yr)
}

/// Whether the line is `<var> R I IZ <f> MKAY`.
pub open spec fn is_var_r_call_no_args(ts: Seq<TokenModel>) -> bool {
    &&& ts.len() == 6
    &&& ts[0] is Identifier
    &&& is_kw(ts, 1, Keyword::R)
    &&& is_kw(ts, 2, Keyword::I)
    &&& is_kw(ts, 3, Keyword::Iz)
    &&& ts[4] is Identifier
    &&& is_kw(ts, 5, Keyword::Mkay)
}

/// Parses the line `ts`; the lines `ls` from index `pos` on follow it, and a block
/// statement reads its lines from there. The result is the statement (none for an
/// empty line) and the index of the next unread line.
pub open spec fn parse_line_spec(ts: Seq<TokenModel>, ls: Seq<Seq<char>>, pos: int) -> Result<(Option<StatementModel>, int), AppErrorModel>
    decreases ls.len() - pos, 3int,
{
    if ts.len() == 0 {
        Ok((None, pos))
    } else if ts.len() == 1 && ts[0] == TokenModel::Keyword(Keyword::Hai) {
        Err(AppErrorModel::MustGiveVersionNumberInHaiLine)
    } else if is_kw(ts, 0, Keyword::Can) && is_kw(ts, 1, Keyword::Has) {
        at_line(can_has(ts), pos)
    } else if ts.len() == 2 && is_kw(ts, 0, Keyword::Hai) && ts[1] is Numbar {
        Ok((Some(StatementModel::Hai(ts[1]->Numbar_0)), pos))
    } else if is_kw(ts, 0, Keyword::Visible) {
        at_line(visible(ts), pos)
    } else if is_kw(ts, 0, Keyword::I) && is_kw(ts, 1, Keyword::Has) {
        at_line(i_has_a(ts), pos)
    } else if is_kw(ts, 0, Keyword::How) && is_kw(ts, 1, Keyword::Iz) && is_kw(ts, 2, Keyword::I) {
        block_line(parse_function_spec(ts, ls, pos))
    } else if is_kw(ts, 0, Keyword::I) && is_kw(ts, 1, Keyword::Iz) {
        at_line(i_iz(ts), pos)
    } else if is_var_r_call(ts) {
        at_line(var_r_call(ts), pos)
    } else if is_var_r_call_no_args(ts) {
        Ok((Some(StatementModel::VarRIIzFunc(IdentModel::Identifier(ts[0]->Identifier_0), ts[4]->Identifier_0, seq![])), pos))
    } else if is_kw(ts, 0, Keyword::Gimmeh) {
        at_line(gimmeh(ts), pos)
    } else if ts.len() == 3 && is_kw(ts, 0, Keyword::O) && is_kw(ts, 1, Keyword::Rly) && ts[2] == TokenModel::QuestionMark {
        block_line(parse_o_rly_spec(ts, ls, pos))
    } else if ts.len() == 1 && ts[0] == TokenModel::Keyword(Keyword::KThxBye) {
        Ok((Some(StatementModel::KThxBye), pos))
    } else {
        at_line(other_line(ts), pos)
    }
}

/// The parameters of `HOW IZ I <name> YR <p> AN YR <q> ...` from index `total`: each
/// a name, separated by `AN` (a `YR` after `AN` is not skipped).
pub open spec fn fn_params(ts: Seq<TokenModel>, total: int, acc: Seq<IdentModel>) -> Result<Seq<IdentModel>, AppErrorModel>
    decreases ts.len() - total,
{
    if total < 0 || total > ts.len() {
        Err(AppErrorModel::FunctionParseError)
    } else {
        match parse_ident(ts, total) {
            Err(e) => Err(e),
            Ok((p, c)) => {
                let t2 = total + c;
                if is_kw(ts, t2, Keyword::An) && c >= 0 {
                    fn_params(ts, t2 + 1, acc.push(p))
                } else if t2 >= ts.len() {
                    Ok(acc.push(p))
                } else {
                    Err(AppErrorModel::FunctionParseError)
                }
            },
        }
    }
}

/// The name and parameters of `HOW IZ I <name> [YR <p> [AN <q>] ...]`.
pub open spec fn function_header(ts: Seq<TokenModel>) -> Result<(IdentModel, Seq<IdentModel>), AppErrorModel> {
    match parse_ident(ts, 3) {
        Err(e) => Err(e),
        Ok((name, c)) => {
            let total = 3 + c;
            if total == ts.len() {
                Ok((name, seq![]))
            } else if !is_kw(ts, total, Keyword::Yr) {
                Err(AppErrorModel::FunctionParseError)
            } else if total + 1 < ts.len() {
                match fn_params(ts, total + 1, seq![]) {
                    Err(e) => Err(e),
                    Ok(ps) => Ok((name, ps)),
                }
            } else {
                Ok((name, seq![]))
            }
        },
    }
}

/// Whether the line is `IF U SAY SO`.
pub open spec fn is_if_u_say_so(ts: Seq<TokenModel>) -> bool {
    &&& ts.len() == 4
    &&& is_kw(ts, 0, Keyword::If)
    &&& is_kw(ts, 1, Keyword::U)
    &&& is_kw(ts, 2, Keyword::Say)
    &&& is_kw(ts, 3, Keyword::So)
}

/// The body of a function from line `pos` on, after the statements `body`, up to
/// and without `IF U SAY SO`; `FOUND YR <expr>` and `GTFO` are read here only. The
/// result is the body and the index of the line after `IF U SAY SO`.
pub open spec fn function_body(ls: Seq<Seq<char>>, pos: int, body: Seq<StatementModel>) -> Result<(Seq<StatementModel>, int), AppErrorModel>
    decreases ls.len() - pos, 1int,
{
    if pos < 0 || pos >= ls.len() {
        Err(AppErrorModel::FunctionMustEndIfUSaySo)
    } else {
        match tokenize(ls[pos]) {
            Err(e) => Err(e),
            Ok(ts) => if is_if_u_say_so(ts) {
                Ok((body, pos + 1))
            } else if is_kw(ts, 0, Keyword::Found) && is_kw(ts, 1, Keyword::Yr) {
                match parse_expr(ts, 2) {
                    Err(e) => Err(e),
                    Ok((e, _)) => function_body(ls, pos + 1, body.push(StatementModel::FoundYr(e))),
                }
            } else if ts.len() == 1 && ts[0] == TokenModel::Keyword(Keyword::Gtfo) {
                function_body(ls, pos + 1, body.push(StatementModel::Gtfo))
            } else {
                match parse_line_spec(ts, ls, pos + 1) {
                    Err(e) => Err(e),
                    // A parse reads lines forward only (`law_parse_line_reads_forward`); the bounds keep
                    // the definition well-founded.
                    Ok((s, p)) => if p <= pos || p > ls.len() {
                        Err(AppErrorModel::FunctionMustEndIfUSaySo)
                    } else {
                        match s {
                            Some(st) => function_body(ls, p, body.push(st)),
                            None => function_body(ls, p, body),
                        }
                    },
                }
            },
        }
    }
}

/// `HOW IZ I <name> ...` and the lines of its body, from line `pos` on, up to
/// `IF U SAY SO`: the function definition and the index of the next unread line.
pub open spec fn parse_function_spec(ts: Seq<TokenModel>, ls: Seq<Seq<char>>, pos: int) -> Result<(StatementModel, int), AppErrorModel>
    decreases ls.len() - pos, 2int,
{
    if !(is_kw(ts, 0, Keyword::How) && is_kw(ts, 1, Keyword::Iz) && is_kw(ts, 2, Keyword::I)) {
        Err(AppErrorModel::FunctionParseError)
    } else {
        match function_header(ts) {
            Err(e) => Err(e),
            Ok((name, params)) => match function_body(ls, pos, seq![]) {
                Err(e) => Err(e),
                Ok((body, p)) => Ok((StatementModel::HowIzI(name, params, body), p)),
            },
        }
    }
}

/// The statements of one part of an `O RLY?` block from line `pos` on, after `acc`,
/// up to its boundary line: the statements, the boundary and the index of the line
/// after the boundary.
pub open spec fn sub_block(ls: Seq<Seq<char>>, pos: int, acc: Seq<StatementModel>) -> Result<(Seq<StatementModel>, BoundaryModel, int), AppErrorModel>
    decreases ls.len() - pos, 1int,
{
    if pos < 0 || pos >= ls.len() {
        Err(AppErrorModel::ORlyBlockMustEndOic)
    } else {
        match tokenize(ls[pos]) {
            Err(e) => Err(e),
            Ok(ts) => if is_kw(ts, 0, Keyword::Mebbe) {
                match parse_expr(ts, 1) {
                    Err(e) => Err(e),
                    Ok((e, c)) => if c != ts.len() - 1 {
                        Err(AppErrorModel::ORlyParseError)
                    } else {
                        Ok((acc, BoundaryModel::Mebbe(e), pos + 1))
                    },
                }
            } else if ts.len() == 2 && is_kw(ts, 0, Keyword::No) && is_kw(ts, 1, Keyword::Wai) {
                Ok((acc, BoundaryModel::NoWai, pos + 1))
            } else if ts.len() == 1 && ts[0] == TokenModel::Keyword(Keyword::Oic) {
                Ok((acc, BoundaryModel::Oic, pos + 1))
            } else {
                match parse_line_spec(ts, ls, pos + 1) {
                    Err(e) => Err(e),
                    // A parse reads lines forward only (`law_parse_line_reads_forward`); the bounds keep
                    // the definition well-founded.
                    Ok((s, p)) => if p <= pos || p > ls.len() {
                        Err(AppErrorModel::ORlyBlockMustEndOic)
                    } else {
                        match s {
                            Some(st) => sub_block(ls, p, acc.push(st)),
                            None => sub_block(ls, p, acc),
                        }
                    },
                }
            },
        }
    }
}

/// The rest of an `O RLY?` block from line `pos` on, after the `YA RLY` part `ya`,
/// the `MEBBE` blocks `mebbes`, and the boundary `b` that ended the last part.
pub open spec fn o_rly_rest(
    ls: Seq<Seq<char>>,
    pos: int,
    b: BoundaryModel,
    ya: Seq<StatementModel>,
    mebbes: Seq<MebbeModel>,
) -> Result<(StatementModel, int), AppErrorModel>
    decreases ls.len() - pos, 2int,
{
    match b {
        BoundaryModel::Mebbe(e) => match sub_block(ls, pos, seq![]) {
            Err(err) => Err(err),
            // A parse reads lines forward only (`law_parse_line_reads_forward`); the bounds keep
            // the definition well-founded.
            Ok((stmts, nb, p)) => if p <= pos || p > ls.len() {
                Err(AppErrorModel::ORlyBlockMustEndOic)
            } else {
                o_rly_rest(ls, p, nb, ya, mebbes.push(MebbeModel { expr: e, statements: stmts }))
            },
        },
        BoundaryModel::NoWai => match sub_block(ls, pos, seq![]) {
            Err(err) => Err(err),
            Ok((stmts, nb, p)) => match nb {
                BoundaryModel::Oic => Ok((StatementModel::ORly(ya, mebbes, stmts), p)),
                BoundaryModel::Mebbe(_) => Err(AppErrorModel::ORlyNoWaiBlockMustBeLast),
                BoundaryModel::NoWai => Err(AppErrorModel::ORlyBlockCanOnlyHaveOneNoWai),
            },
        },
        BoundaryModel::Oic => Ok((StatementModel::ORly(ya, mebbes, seq![]), pos)),
    }
}

/// `O RLY?` and the lines of its block, from line `pos` on: `YA RLY`, its statements,
/// any `MEBBE <expr>` parts, an optional `NO WAI` part, then `OIC`.
pub open spec fn parse_o_rly_spec(ts: Seq<TokenModel>, ls: Seq<Seq<char>>, pos: int) -> Result<(StatementModel, int), AppErrorModel>
    decreases ls.len() - pos, 2int,
{
    if !(ts.len() == 3 && is_kw(ts, 0, Keyword::O) && is_kw(ts, 1, Keyword::Rly) && ts[2] == TokenModel::QuestionMark) {
        Err(AppErrorModel::ORlyParseError)
    } else if pos < 0 || pos >= ls.len() {
        Err(AppErrorModel::ORlyBlockMustHaveYaRly)
    } else {
        match tokenize(ls[pos]) {
            Err(e) => Err(e),
            Ok(yt) => if !(yt.len() == 2 && is_kw(yt, 0, Keyword::Ya) && is_kw(yt, 1, Keyword::Rly)) {
                Err(AppErrorModel::ORlyBlockMustHaveYaRly)
            } else {
                match sub_block(ls, pos + 1, seq![]) {
                    Err(e) => Err(e),
                    // A parse reads lines forward only (`law_parse_line_reads_forward`); the bounds keep
                    // the definition well-founded.
                    Ok((ya, b, p)) => if p <= pos || p > ls.len() {
                        Err(AppErrorModel::ORlyBlockMustEndOic)
                    } else {
                        o_rly_rest(ls, p, b, ya, seq![])
                    },
                }
            },
        }
    }
}

/// A line's parse reads the lines that follow it forward only, and never past the
/// last: the index of the next unread line is at least where it started (after it,
/// for a block statement) and at most the number of lines.
pub proof fn law_parse_line_reads_forward(ts: Seq<TokenModel>, ls: Seq<Seq<char>>, pos: int)
    requires
        0 <= pos <= ls.len(),
    ensures
        parse_line_spec(ts, ls, pos) matches Ok((_, p)) ==> pos <= p <= ls.len(),
    decreases ls.len() - pos, 3int,
{
    law_function_reads_forward(ts, ls, pos);
    law_o_rly_reads_forward(ts, ls, pos);
}

/// A function definition reads at least the line that ends it.
pub proof fn law_function_reads_forward(ts: Seq<TokenModel>, ls: Seq<Seq<char>>, pos: int)
    requires
        0 <= pos <= ls.len(),
    ensures
        parse_function_spec(ts, ls, pos) matches Ok((_, p)) ==> pos < p <= ls.len(),
    decreases ls.len() - pos, 2int,
{
    lemma_body_reads_forward(ls, pos, seq![]);
}

proof fn lemma_body_reads_forward(ls: Seq<Seq<char>>, pos: int, body: Seq<StatementModel>)
    requires
        0 <= pos <= ls.len(),
    ensures
        function_body(ls, pos, body) matches Ok((_, p)) ==> pos < p <= ls.len(),
    decreases ls.len() - pos, 1int,
{
    if pos < ls.len() {
        match tokenize(ls[pos]) {
            Ok(ts) => {
                if is_if_u_say_so(ts) {
                } else if is_kw(ts, 0, Keyword::Found) && is_kw(ts, 1, Keyword::Yr) {
                    match parse_expr(ts, 2) {
                        Ok((e, _)) => lemma_body_reads_forward(ls, pos + 1, body.push(StatementModel::FoundYr(e))),
                        Err(_) => {},
                    }
                } else if ts.len() == 1 && ts[0] == TokenModel::Keyword(Keyword::Gtfo) {
                    lemma_body_reads_forward(ls, pos + 1, body.push(StatementModel::Gtfo));
                } else {
                    law_parse_line_reads_forward(ts, ls, pos + 1);
                    match parse_line_spec(ts, ls, pos + 1) {
                        Ok((s, p)) => {
                            if pos < p <= ls.len() {
                                match s {
                                    Some(st) => lemma_body_reads_forward(ls, p, body.push(st)),
                                    None => lemma_body_reads_forward(ls, p, body),
                                }
                            }
                        },
                        Err(_) => {},
                    }
                }
            },
            Err(_) => {},
        }
    }
}

proof fn lemma_sub_block_reads_forward(ls: Seq<Seq<char>>, pos: int, acc: Seq<StatementModel>)
    requires
        0 <= pos <= ls.len(),
    ensures
        sub_block(ls, pos, acc) matches Ok((_, _, p)) ==> pos < p <= ls.len(),
    decreases ls.len() - pos, 1int,
{
    if pos < ls.len() {
        match tokenize(ls[pos]) {
            Ok(ts) => {
                if !is_kw(ts, 0, Keyword::Mebbe) && !(ts.len() == 2 && is_kw(ts, 0, Keyword::No) && is_kw(ts, 1, Keyword::Wai))
                    && !(ts.len() == 1 && ts[0] == TokenModel::Keyword(Keyword::Oic)) {
                    law_parse_line_reads_forward(ts, ls, pos + 1);
                    match parse_line_spec(ts, ls, pos + 1) {
                        Ok((s, p)) => {
                            if pos < p <= ls.len() {
                                match s {
                                    Some(st) => lemma_sub_block_reads_forward(ls, p, acc.push(st)),
                                    None => lemma_sub_block_reads_forward(ls, p, acc),
                                }
                            }
                        },
                        Err(_) => {},
                    }
                }
            },
            Err(_) => {},
        }
    }
}

proof fn lemma_o_rly_rest_reads_forward(
    ls: Seq<Seq<char>>,
    pos: int,
    b: BoundaryModel,
    ya: Seq<StatementModel>,
    mebbes: Seq<MebbeModel>,
)
    requires
        0 <= pos <= ls.len(),
    ensures
        o_rly_rest(ls, pos, b, ya, mebbes) matches Ok((_, p)) ==> pos <= p <= ls.len(),
    decreases ls.len() - pos, 2int,
{
    lemma_sub_block_reads_forward(ls, pos, seq![]);
    match b {
        BoundaryModel::Mebbe(e) => match sub_block(ls, pos, seq![]) {
            Ok((stmts, nb, p)) => {
                if pos < p <= ls.len() {
                    lemma_o_rly_rest_reads_forward(ls, p, nb, ya, mebbes.push(MebbeModel { expr: e, statements: stmts }));
                }
            },
            Err(_) => {},
        },
        _ => {},
    }
}

/// An `O RLY?` block reads at least the line that ends it.
pub proof fn law_o_rly_reads_forward(ts: Seq<TokenModel>, ls: Seq<Seq<char>>, pos: int)
    requires
        0 <= pos <= ls.len(),
    ensures
        parse_o_rly_spec(ts, ls, pos) matches Ok((_, p)) ==> pos < p <= ls.len(),
    decreases ls.len() - pos, 2int,
{
    if pos < ls.len() {
        lemma_sub_block_reads_forward(ls, pos + 1, seq![]);
        match sub_block(ls, pos + 1, seq![]) {
            Ok((ya, b, p)) => {
                if pos < p <= ls.len() {
                    lemma_o_rly_rest_reads_forward(ls, p, b, ya, seq![]);
                }
            },
            Err(_) => {},
        }
    }
}

fn parse_can_has(tokens: &[Token]) -> (r: Result<Statement, AppError>)
    ensures
        r matches Ok(s) ==> can_has(token_views(tokens@)) == Ok::<StatementModel, AppErrorModel>(s@),
        r matches Err(e) ==> can_has(token_views(tokens@)) == Err::<StatementModel, AppErrorModel>(e@),
{
    let ghost ts = token_views(tokens@);
    let n = tokens.len();
    if n <= 2 || !matches!(tokens[n - 1], Token::QuestionMark) {
        return Err(AppError::CanHasMustEndQuestionMark);
    }
    let ident_tokens = copy_range(tokens, 2, n - 1);
    assert(token_views(ident_tokens@) == ts.subrange(2, ts.len() - 1));
    let (ident_expr, consumed) = IdentifierExpr::parse(ident_tokens.as_slice())?;
    if consumed != ident_tokens.len() {
        return Err(AppError::InvalidIdentifierExpr(Tokens::of(tokens)));
    }
    Ok(Statement::CanHasLib(ident_expr))
}

/// The expressions of `VISIBLE` from `offset` of `slice`, after `acc`.
fn visible_exprs_from(slice: &[Token], offset: usize, acc: Vec<Expr>) -> (r: Result<Vec<Expr>, AppError>)
    requires
        offset <= slice@.len(),
    ensures
        r matches Ok(v) ==> visible_exprs(token_views(slice@), offset as int, expr_views(acc)) == Ok::<Seq<ExprModel>, AppErrorModel>(expr_views(v)),
        r matches Err(e) ==> visible_exprs(token_views(slice@), offset as int, expr_views(acc)) == Err::<Seq<ExprModel>, AppErrorModel>(e@),
    decreases slice@.len() - offset,
{
    if offset >= slice.len() {
        return Ok(acc);
    }
    if slice[offset].is_keyword(Keyword::An) {
        return visible_exprs_from(slice, offset + 1, acc);
    }
    let (expr, consumed) = Expr::parse_at(slice, offset)?;
    let mut acc = acc;
    let ghost before = expr_views(acc);
    proof {
        lemma_expr_views(acc);
    }
    acc.push(expr);
    proof {
        lemma_expr_views(acc);
        assert(expr_views(acc) =~= before.push(expr@));
    }
    visible_exprs_from(slice, offset + consumed, acc)
}

fn parse_visible(tokens: &[Token]) -> (r: Result<Statement, AppError>)
    requires
        tokens@.len() >= 1,
    ensures
        r matches Ok(s) ==> visible(token_views(tokens@)) == Ok::<StatementModel, AppErrorModel>(s@),
        r matches Err(e) ==> visible(token_views(tokens@)) == Err::<StatementModel, AppErrorModel>(e@),
{
    let ghost ts = token_views(tokens@);
    let n = tokens.len();
    let no_new_line = n > 1 && matches!(tokens[n - 1], Token::ExclamationMark);
    let end = if no_new_line {
        n - 1
    } else {
        n
    };
    let slice = copy_range(tokens, 1, end);
    proof {
        let rest = ts.skip(1);
        if no_new_line {
            assert(token_views(slice@) =~= rest.drop_last());
        } else {
            assert(token_views(slice@) =~= rest);
        }
    }
    let empty: Vec<Expr> = Vec::new();
    assert(expr_views(empty) =~= Seq::<ExprModel>::empty());
    let exprs = visible_exprs_from(slice.as_slice(), 0, empty)?;
    if exprs.len() == 0 {
        return Err(AppError::VisibleMustHaveAnArg);
    }
    Ok(Statement::Visible(exprs, no_new_line))
}

fn parse_i_has_a(tokens: &[Token]) -> (r: Result<Statement, AppError>)
    requires
        tokens@.len() >= 2,
    ensures
        r matches Ok(s) ==> i_has_a(token_views(tokens@)) == Ok::<StatementModel, AppErrorModel>(s@),
        r matches Err(e) ==> i_has_a(token_views(tokens@)) == Err::<StatementModel, AppErrorModel>(e@),
{
    let ghost ts = token_views(tokens@);
    let n = tokens.len();
    let mut i: usize = 2;
    if tok_is(tokens, 2, Keyword::A) {
        i = 3;
    }
    let (var, consumed) = IdentifierExpr::parse_at(tokens, i)?;
    i = i + consumed;
    let mut init = Expr::Noob;
    if tok_is(tokens, i, Keyword::Itz) {
        i = i + 1;
        if tok_is(tokens, i, Keyword::A) {
            i = i + 1;
        }
        if i >= n {
            return Err(AppError::UnexpectedEOF);
        }
        let (expr, c): (Expr, usize) = match &tokens[i] {
            Token::Keyword(Keyword::Yarn) => (Expr::Yarn(Yarn::empty()), 1),
            Token::Keyword(Keyword::Troof) => (Expr::Troof(Troof::new(false)), 1),
            Token::Keyword(Keyword::Numbar) => (Expr::Numbar(Numbar::zero()), 1),
            Token::Keyword(Keyword::Numbr) => (Expr::Numbr(Numbr::new(0)), 1),
            Token::Keyword(Keyword::Noob) => (Expr::Noob, 1),
            _ => Expr::parse_at(tokens, i)?,
        };
        init = expr;
        i = i + c;
    }
    if i != tokens.len() {
        return Err(AppError::InvalidSyntax(Tokens::of(tokens)));
    }
    Ok(Statement::IHasA(var, init))
}

/// The arguments of `I IZ` from index `total`, after `acc`.
fn iiz_params_from(tokens: &[Token], total: usize, acc: Vec<Expr>) -> (r: Result<Vec<Expr>, AppError>)
    requires
        total <= tokens@.len(),
    ensures
        r matches Ok(v) ==> iiz_params(token_views(tokens@), total as int, expr_views(acc)) == Ok::<Seq<ExprModel>, AppErrorModel>(expr_views(v)),
        r matches Err(e) ==> iiz_params(token_views(tokens@), total as int, expr_views(acc)) == Err::<Seq<ExprModel>, AppErrorModel>(e@),
    decreases tokens@.len() - total,
{
    let n = tokens.len();
    let (param, consumed) = Expr::parse_at(tokens, total)?;
    let mut acc = acc;
    let ghost before = expr_views(acc);
    proof {
        lemma_expr_views(acc);
    }
    acc.push(param);
    proof {
        lemma_expr_views(acc);
        assert(expr_views(acc) =~= before.push(param@));
    }
    let t2 = total + consumed;
    if tok_is(tokens, t2, Keyword::An) {
        iiz_params_from(tokens, t2 + 1, acc)
    } else if tok_is(tokens, t2, Keyword::Mkay) {
        Ok(acc)
    } else {
        Err(AppError::FunctionParseError)
    }
}

fn parse_i_iz(tokens: &[Token]) -> (r: Result<Statement, AppError>)
    ensures
        r matches Ok(s) ==> i_iz(token_views(tokens@)) == Ok::<StatementModel, AppErrorModel>(s@),
        r matches Err(e) ==> i_iz(token_views(tokens@)) == Err::<StatementModel, AppErrorModel>(e@),
{
    let n = tokens.len();
    if n <= 2 || !tokens[n - 1].is_keyword(Keyword::Mkay) {
        return Err(AppError::FunctionArgumentsMustEndWithMkay);
    }
    let (func_name, consumed) = IdentifierExpr::parse_at(tokens, 2)?;
    let total = 2 + consumed;
    let empty: Vec<Expr> = Vec::new();
    assert(expr_views(empty) =~= Seq::<ExprModel>::empty());
    if total == n - 1 {
        return Ok(Statement::IIz(func_name, empty));
    }
    if !tok_is(tokens, total, Keyword::Yr) {
        return Err(AppError::FunctionParseError);
    }
    if total + 1 < n {
        let params = iiz_params_from(tokens, total + 1, empty)?;
        Ok(Statement::IIz(func_name, params))
    } else {
        Ok(Statement::IIz(func_name, empty))
    }
}

/// The arguments after the first of `<var> R I IZ <f> YR ...`, from offset `i` of the
/// tokens after `YR`, after `acc`.
fn call_args_from(tokens: &[Token], called: &Identifier, i: usize, acc: Vec<Expr>) -> (r: Result<Vec<Expr>, AppError>)
    requires
        is_var_r_call(token_views(tokens@)),
        called@ == token_views(tokens@)[4]->Identifier_0,
        i <= tokens@.len() - 6,
    ensures
        r matches Ok(v) ==> call_args(token_views(tokens@), token_views(tokens@).skip(6), i as int, expr_views(acc))
            == Ok::<Seq<ExprModel>, AppErrorModel>(expr_views(v)),
        r matches Err(e) ==> call_args(token_views(tokens@), token_views(tokens@).skip(6), i as int, expr_views(acc))
            == Err::<Seq<ExprModel>, AppErrorModel>(e@),
    decreases tokens@.len() - 6 - i,
{
    let n = tokens.len();
    let m = n - 6;
    if i >= m || i + 3 > m {
        return Ok(acc);
    }
    if tokens[6 + i].is_keyword(Keyword::An) && tokens[7 + i].is_keyword(Keyword::Yr) {
        let a = Expr::try_from(&tokens[8 + i])?;
        let mut acc = acc;
        let ghost before = expr_views(acc);
        proof {
            lemma_expr_views(acc);
        }
        acc.push(a);
        proof {
            lemma_expr_views(acc);
            assert(expr_views(acc) =~= before.push(a@));
        }
        call_args_from(tokens, called, i + 3, acc)
    } else {
        Err(AppError::IncorrectFunctionArguments(called.copy(), Tokens::of(tokens)))
    }
}

fn parse_var_r_call(tokens: &[Token]) -> (r: Result<Statement, AppError>)
    requires
        is_var_r_call(token_views(tokens@)),
    ensures
        r matches Ok(s) ==> var_r_call(token_views(tokens@)) == Ok::<StatementModel, AppErrorModel>(s@),
        r matches Err(e) ==> var_r_call(token_views(tokens@)) == Err::<StatementModel, AppErrorModel>(e@),
{
    let ghost ts = token_views(tokens@);
    let n = tokens.len();
    let (var_name, called) = match (&tokens[0], &tokens[4]) {
        (Token::Identifier(v), Token::Identifier(f)) => (v.copy(), f.copy()),
        _ => {
            return Err(AppError::FunctionParseError);
        },
    };
    if n == 6 {
        return Err(AppError::IncorrectFunctionArguments(called, Tokens::of(tokens)));
    }
    let first = Expr::try_from(&tokens[6])?;
    let mut args: Vec<Expr> = Vec::new();
    args.push(first);
    proof {
        lemma_expr_views(args);
        assert(expr_views(args) =~= seq![first@]);
    }
    let args = call_args_from(tokens, &called, 1, args)?;
    if !tokens[n - 1].is_keyword(Keyword::Mkay) {
        return Err(AppError::FunctionArgumentsMustEndWithMkay);
    }
    let var_id = IdentifierExpr::from_identifier(var_name);
    Ok(Statement::VarRIIzFunc(var_id, called, args))
}

fn parse_gimmeh(tokens: &[Token]) -> (r: Result<Statement, AppError>)
    requires
        tokens@.len() >= 1,
    ensures
        r matches Ok(s) ==> gimmeh(token_views(tokens@)) == Ok::<StatementModel, AppErrorModel>(s@),
        r matches Err(e) ==> gimmeh(token_views(tokens@)) == Err::<StatementModel, AppErrorModel>(e@),
{
    let (gimmeh_id, consumed) = IdentifierExpr::parse_at(tokens, 1)?;
    if consumed != tokens.len() - 1 {
        return Err(AppError::InvalidIdentifierExpr(Tokens::of(tokens)));
    }
    Ok(Statement::Gimmeh(gimmeh_id))
}

proof fn lemma_find_r(ts: Seq<TokenModel>, k: int)
    requires
        0 <= k <= ts.len(),
        forall|j: int| 0 <= j < k ==> ts[j] != TokenModel::Keyword(Keyword::R),
        k < ts.len() ==> ts[k] == TokenModel::Keyword(Keyword::R),
    ensures
        find_r(ts) == k,
    decreases k,
{
    if k > 0 {
        let d = ts.drop_first();
        assert forall|j: int| 0 <= j < k - 1 implies d[j] != TokenModel::Keyword(Keyword::R) by {
            assert(d[j] == ts[j + 1]);
        }
        lemma_find_r(d, k - 1);
    }
}

fn parse_other_line(tokens: &[Token]) -> (r: Result<Statement, AppError>)
    ensures
        r matches Ok(s) ==> other_line(token_views(tokens@)) == Ok::<StatementModel, AppErrorModel>(s@),
        r matches Err(e) ==> other_line(token_views(tokens@)) == Err::<StatementModel, AppErrorModel>(e@),
{
    let ghost ts = token_views(tokens@);
    let n = tokens.len();
    let mut k: usize = 0;
    while k < n && !tokens[k].is_keyword(Keyword::R)
        invariant
            k <= n == tokens@.len(),
            ts == token_views(tokens@),
            forall|j: int| 0 <= j < k ==> ts[j] != TokenModel::Keyword(Keyword::R),
        decreases n - k,
    {
        k = k + 1;
    }
    proof {
        lemma_find_r(ts, k as int);
    }
    if k < n {
        let lhs = copy_range(tokens, 0, k);
        assert(token_views(lhs@) =~= ts.take(k as int));
        let (ident_expr, consumed) = IdentifierExpr::parse(lhs.as_slice())?;
        if consumed != lhs.len() {
            return Err(AppError::InvalidIdentifierExpr(Tokens(lhs)));
        }
        let (expr, consumed2) = Expr::parse_at(tokens, k + 1)?;
        if consumed2 != n - k - 1 {
            return Err(AppError::InvalidExpression(tokens_from(tokens, k + 1)));
        }
        return Ok(Statement::Rassignment(ident_expr, expr));
    }
    match Expr::parse(tokens) {
        Ok((expr, consumed)) => {
            if consumed == n {
                Ok(Statement::Expr(expr))
            } else {
                Err(AppError::LineParseError(Tokens::of(tokens)))
            }
        },
        Err(_) => Err(AppError::LineParseError(Tokens::of(tokens))),
    }
}

/// What ended a part of an `O RLY?` block.
enum ORlyBoundary {
    Mebbe(Expr),
    NoWai,
    Oic,
}

impl View for ORlyBoundary {
    type V = BoundaryModel;

    closed spec fn view(&self) -> BoundaryModel {
        match self {
            ORlyBoundary::Mebbe(e) => BoundaryModel::Mebbe(e@),
            ORlyBoundary::NoWai => BoundaryModel::NoWai,
            ORlyBoundary::Oic => BoundaryModel::Oic,
        }
    }
}

fn is_var_r_call_exec(tokens: &[Token], last: Keyword) -> (r: bool)
    ensures
        last == Keyword::Yr ==> r == is_var_r_call(token_views(tokens@)),
        last == Keyword::Mkay ==> r == is_var_r_call_no_args(token_views(tokens@)),
{
    let n = tokens.len();
    let shape = if last == Keyword::Yr {
        n >= 6
    } else {
        n == 6
    };
    shape && matches!(tokens[0], Token::Identifier(_)) && tokens[1].is_keyword(Keyword::R) && tokens[2].is_keyword(
        Keyword::I,
    ) && tokens[3].is_keyword(Keyword::Iz) && matches!(tokens[4], Token::Identifier(_)) && tokens[5].is_keyword(last)
}

fn is_if_u_say_so_exec(tokens: &[Token]) -> (r: bool)
    ensures
        r == is_if_u_say_so(token_views(tokens@)),
{
    tokens.len() == 4 && tokens[0].is_keyword(Keyword::If) && tokens[1].is_keyword(Keyword::U) && tokens[2].is_keyword(
        Keyword::Say,
    ) && tokens[3].is_keyword(Keyword::So)
}

fn push_stmt(v: &mut Vec<Statement>, s: Statement)
    ensures
        stmt_views(*final(v)) == stmt_views(*old(v)).push(s@),
{
    proof {
        lemma_stmt_views(*v);
    }
    let ghost before = stmt_views(*v);
    v.push(s);
    proof {
        lemma_stmt_views(*v);
        assert(stmt_views(*v) =~= before.push(s@));
    }
}

/// The tokens of line `pos`.
fn tokens_of_line(lines: &[Vec<char>], pos: usize) -> (r: Result<Vec<Token>, AppError>)
    requires
        pos < lines@.len(),
    ensures
        r matches Ok(ts) ==> tokenize(views(lines@)[pos as int]) == Ok::<Seq<TokenModel>, AppErrorModel>(token_views(ts@)),
        r matches Err(e) ==> tokenize(views(lines@)[pos as int]) == Err::<Seq<TokenModel>, AppErrorModel>(e@),
{
    assert(views(lines@)[pos as int] == lines@[pos as int]@);
    tokenize_chars(lines[pos].as_slice())
}

/// Parses a line of tokens; the lines from index `pos` of `lines` follow it, and a
/// block statement (a function definition, `O RLY?`) reads its lines from there.
/// Gives the statement (none for an empty line) and the index of the next unread
/// line (see `parse_line_spec`).
pub fn parse_line(tokens: &[Token], lines: &[Vec<char>], pos: usize) -> (r: Result<(Option<Statement>, usize), AppError>)
    requires
        pos <= lines@.len(),
    ensures
        r matches Ok((s, p)) ==> parse_line_spec(token_views(tokens@), views(lines@), pos as int) == Ok::<(Option<StatementModel>, int), AppErrorModel>(
            (opt_stmt_view(s), p as int),
        ) && pos <= p <= lines@.len(),
        r matches Err(e) ==> parse_line_spec(token_views(tokens@), views(lines@), pos as int) == Err::<(Option<StatementModel>, int), AppErrorModel>(e@),
    decreases lines@.len() - pos, 3int,
{
    let n = tokens.len();
    if n == 0 {
        return Ok((None, pos));
    }
    if n == 1 && tokens[0].is_keyword(Keyword::Hai) {
        return Err(AppError::MustGiveVersionNumberInHaiLine);
    }
    if tok_is(tokens, 0, Keyword::Can) && tok_is(tokens, 1, Keyword::Has) {
        let s = parse_can_has(tokens)?;
        return Ok((Some(s), pos));
    }
    if n == 2 && tokens[0].is_keyword(Keyword::Hai) {
        match &tokens[1] {
            Token::Numbar(version) => {
                return Ok((Some(Statement::Hai(version.value().copy())), pos));
            },
            _ => {},
        }
    }
    if tokens[0].is_keyword(Keyword::Visible) {
        let s = parse_visible(tokens)?;
        return Ok((Some(s), pos));
    }
    if tok_is(tokens, 0, Keyword::I) && tok_is(tokens, 1, Keyword::Has) {
        let s = parse_i_has_a(tokens)?;
        return Ok((Some(s), pos));
    }
    if tok_is(tokens, 0, Keyword::How) && tok_is(tokens, 1, Keyword::Iz) && tok_is(tokens, 2, Keyword::I) {
        let (s, p) = parse_function(tokens, lines, pos)?;
        return Ok((Some(s), p));
    }
    if tok_is(tokens, 0, Keyword::I) && tok_is(tokens, 1, Keyword::Iz) {
        let s = parse_i_iz(tokens)?;
        return Ok((Some(s), pos));
    }
    if is_var_r_call_exec(tokens, Keyword::Yr) {
        let s = parse_var_r_call(tokens)?;
        return Ok((Some(s), pos));
    }
    if is_var_r_call_exec(tokens, Keyword::Mkay) {
        match (&tokens[0], &tokens[4]) {
            (Token::Identifier(var_name), Token::Identifier(called)) => {
                let var_id = IdentifierExpr::from_identifier(var_name.copy());
                let no_args: Vec<Expr> = Vec::new();
                assert(expr_views(no_args) =~= Seq::<ExprModel>::empty());
                let s = Statement::VarRIIzFunc(var_id, called.copy(), no_args);
                return Ok((Some(s), pos));
            },
            _ => {},
        }
    }
    if tokens[0].is_keyword(Keyword::Gimmeh) {
        let s = parse_gimmeh(tokens)?;
        return Ok((Some(s), pos));
    }
    if n == 3 && tokens[0].is_keyword(Keyword::O) && tokens[1].is_keyword(Keyword::Rly) && matches!(tokens[2], Token::QuestionMark) {
        let (block, p) = parse_o_rly_block(tokens, lines, pos)?;
        return Ok((Some(Statement::ORly(block)), p));
    }
    if n == 1 && tokens[0].is_keyword(Keyword::KThxBye) {
        return Ok((Some(Statement::KThxBye), pos));
    }
    let s = parse_other_line(tokens)?;
    Ok((Some(s), pos))
}

/// The parameters of `HOW IZ I` from index `total`, after `acc`.
fn fn_params_from(tokens: &[Token], total: usize, acc: Vec<IdentifierExpr>) -> (r: Result<Vec<IdentifierExpr>, AppError>)
    requires
        total <= tokens@.len(),
    ensures
        r matches Ok(v) ==> fn_params(token_views(tokens@), total as int, ident_views(acc)) == Ok::<Seq<IdentModel>, AppErrorModel>(ident_views(v)),
        r matches Err(e) ==> fn_params(token_views(tokens@), total as int, ident_views(acc)) == Err::<Seq<IdentModel>, AppErrorModel>(e@),
    decreases tokens@.len() - total,
{
    let n = tokens.len();
    let (param, consumed) = IdentifierExpr::parse_at(tokens, total)?;
    let mut acc = acc;
    let ghost before = ident_views(acc);
    acc.push(param);
    assert(ident_views(acc) =~= before.push(param@));
    let t2 = total + consumed;
    if tok_is(tokens, t2, Keyword::An) {
        fn_params_from(tokens, t2 + 1, acc)
    } else if t2 >= n {
        Ok(acc)
    } else {
        Err(AppError::FunctionParseError)
    }
}

/// The name and parameters of a `HOW IZ I` line.
fn parse_function_header(tokens: &[Token]) -> (r: Result<(IdentifierExpr, Vec<IdentifierExpr>), AppError>)
    requires
        tokens@.len() >= 3,
    ensures
        r matches Ok((name, ps)) ==> function_header(token_views(tokens@)) == Ok::<(IdentModel, Seq<IdentModel>), AppErrorModel>((name@, ident_views(ps))),
        r matches Err(e) ==> function_header(token_views(tokens@)) == Err::<(IdentModel, Seq<IdentModel>), AppErrorModel>(e@),
{
    let n = tokens.len();
    let (func_name, consumed) = IdentifierExpr::parse_at(tokens, 3)?;
    let total = 3 + consumed;
    let empty: Vec<IdentifierExpr> = Vec::new();
    assert(ident_views(empty) =~= Seq::<IdentModel>::empty());
    if total == n {
        return Ok((func_name, empty));
    }
    if !tok_is(tokens, total, Keyword::Yr) {
        return Err(AppError::FunctionParseError);
    }
    if total + 1 < n {
        let params = fn_params_from(tokens, total + 1, empty)?;
        Ok((func_name, params))
    } else {
        Ok((func_name, empty))
    }
}

/// The body of a function from line `pos` on, after `body` (see `function_body`).
fn function_body_from(lines: &[Vec<char>], pos: usize, body: Vec<Statement>) -> (r: Result<(Vec<Statement>, usize), AppError>)
    requires
        pos <= lines@.len(),
    ensures
        r matches Ok((b, p)) ==> function_body(views(lines@), pos as int, stmt_views(body)) == Ok::<(Seq<StatementModel>, int), AppErrorModel>(
            (stmt_views(b), p as int),
        ) && pos < p <= lines@.len(),
        r matches Err(e) ==> function_body(views(lines@), pos as int, stmt_views(body)) == Err::<(Seq<StatementModel>, int), AppErrorModel>(e@),
    decreases lines@.len() - pos, 1int,
{
    if pos >= lines.len() {
        return Err(AppError::FunctionMustEndIfUSaySo);
    }
    let tokens = tokens_of_line(lines, pos)?;
    let mut body = body;
    if is_if_u_say_so_exec(tokens.as_slice()) {
        return Ok((body, pos + 1));
    }
    if tok_is(tokens.as_slice(), 0, Keyword::Found) && tok_is(tokens.as_slice(), 1, Keyword::Yr) {
        let (expr, _) = Expr::parse_at(tokens.as_slice(), 2)?;
        push_stmt(&mut body, Statement::FoundYr(expr));
        return function_body_from(lines, pos + 1, body);
    }
    if tokens.len() == 1 && tokens[0].is_keyword(Keyword::Gtfo) {
        push_stmt(&mut body, Statement::Gtfo);
        return function_body_from(lines, pos + 1, body);
    }
    let (s, p) = parse_line(tokens.as_slice(), lines, pos + 1)?;
    match s {
        Some(st) => {
            push_stmt(&mut body, st);
        },
        None => {},
    }
    function_body_from(lines, p, body)
}

/// Parses `HOW IZ I <name> [YR <p> [AN <q>] ...]` and the body that follows it from
/// line `pos` up to `IF U SAY SO`: the definition and the index of the next unread
/// line (see `parse_function_spec`).
pub fn parse_function(tokens: &[Token], lines: &[Vec<char>], pos: usize) -> (r: Result<(Statement, usize), AppError>)
    requires
        pos <= lines@.len(),
    ensures
        r matches Ok((s, p)) ==> parse_function_spec(token_views(tokens@), views(lines@), pos as int) == Ok::<(StatementModel, int), AppErrorModel>(
            (s@, p as int),
        ) && pos < p <= lines@.len(),
        r matches Err(e) ==> parse_function_spec(token_views(tokens@), views(lines@), pos as int) == Err::<(StatementModel, int), AppErrorModel>(e@),
    decreases lines@.len() - pos, 2int,
{
    if !(tok_is(tokens, 0, Keyword::How) && tok_is(tokens, 1, Keyword::Iz) && tok_is(tokens, 2, Keyword::I)) {
        return Err(AppError::FunctionParseError);
    }
    let (func_name, params) = parse_function_header(tokens)?;
    let empty: Vec<Statement> = Vec::new();
    assert(stmt_views(empty) =~= Seq::<StatementModel>::empty());
    let (body, p) = function_body_from(lines, pos, empty)?;
    Ok((Statement::HowIzI(func_name, params, body), p))
}

/// The statements of one part of an `O RLY?` block from line `pos` on, after `acc`
/// (see `sub_block`).
fn sub_block_from(lines: &[Vec<char>], pos: usize, acc: Vec<Statement>) -> (r: Result<(Vec<Statement>, ORlyBoundary, usize), AppError>)
    requires
        pos <= lines@.len(),
    ensures
        r matches Ok((v, b, p)) ==> sub_block(views(lines@), pos as int, stmt_views(acc)) == Ok::<(Seq<StatementModel>, BoundaryModel, int), AppErrorModel>(
            (stmt_views(v), b@, p as int),
        ) && pos < p <= lines@.len(),
        r matches Err(e) ==> sub_block(views(lines@), pos as int, stmt_views(acc)) == Err::<(Seq<StatementModel>, BoundaryModel, int), AppErrorModel>(e@),
    decreases lines@.len() - pos, 1int,
{
    if pos >= lines.len() {
        return Err(AppError::ORlyBlockMustEndOic);
    }
    let tokens = tokens_of_line(lines, pos)?;
    let n = tokens.len();
    if tok_is(tokens.as_slice(), 0, Keyword::Mebbe) {
        let (expr, consumed) = Expr::parse_at(tokens.as_slice(), 1)?;
        if consumed != n - 1 {
            return Err(AppError::ORlyParseError);
        }
        return Ok((acc, ORlyBoundary::Mebbe(expr), pos + 1));
    }
    if n == 2 && tokens[0].is_keyword(Keyword::No) && tokens[1].is_keyword(Keyword::Wai) {
        return Ok((acc, ORlyBoundary::NoWai, pos + 1));
    }
    if n == 1 && tokens[0].is_keyword(Keyword::Oic) {
        return Ok((acc, ORlyBoundary::Oic, pos + 1));
    }
    let (s, p) = parse_line(tokens.as_slice(), lines, pos + 1)?;
    let mut acc = acc;
    match s {
        Some(st) => {
            push_stmt(&mut acc, st);
        },
        None => {},
    }
    sub_block_from(lines, p, acc)
}

/// The rest of an `O RLY?` block from line `pos` on (see `o_rly_rest`).
fn o_rly_rest_from(
    lines: &[Vec<char>],
    pos: usize,
    b: ORlyBoundary,
    ya: Vec<Statement>,
    mebbes: Vec<MebbeBlock>,
) -> (r: Result<(ORlyBlock, usize), AppError>)
    requires
        pos <= lines@.len(),
    ensures
        r matches Ok((blk, p)) ==> o_rly_rest(views(lines@), pos as int, b@, stmt_views(ya), mebbe_views(mebbes)) == Ok::<(StatementModel, int), AppErrorModel>(
            (o_rly_view(blk), p as int),
        ) && pos <= p <= lines@.len(),
        r matches Err(e) ==> o_rly_rest(views(lines@), pos as int, b@, stmt_views(ya), mebbe_views(mebbes)) == Err::<(StatementModel, int), AppErrorModel>(e@),
    decreases lines@.len() - pos, 2int,
{
    let empty: Vec<Statement> = Vec::new();
    assert(stmt_views(empty) =~= Seq::<StatementModel>::empty());
    match b {
        ORlyBoundary::Mebbe(expr) => {
            let (stmts, nb, p) = sub_block_from(lines, pos, empty)?;
            let ghost before = mebbe_views(mebbes);
            let ghost e = expr@;
            let ghost sv = stmt_views(stmts);
            let mut mebbes = mebbes;
            proof {
                lemma_mebbe_views(mebbes);
            }
            mebbes.push(MebbeBlock { expr, statements: stmts });
            proof {
                lemma_mebbe_views(mebbes);
                assert(mebbe_views(mebbes) =~= before.push(MebbeModel { expr: e, statements: sv }));
            }
            o_rly_rest_from(lines, p, nb, ya, mebbes)
        },
        ORlyBoundary::NoWai => {
            let (stmts, nb, p) = sub_block_from(lines, pos, empty)?;
            match nb {
                ORlyBoundary::Oic => Ok((ORlyBlock { ya_rly_block: ya, mebbe_blocks: mebbes, no_wai_block: stmts }, p)),
                ORlyBoundary::Mebbe(_) => Err(AppError::ORlyNoWaiBlockMustBeLast),
                ORlyBoundary::NoWai => Err(AppError::ORlyBlockCanOnlyHaveOneNoWai),
            }
        },
        ORlyBoundary::Oic => Ok((ORlyBlock { ya_rly_block: ya, mebbe_blocks: mebbes, no_wai_block: empty }, pos)),
    }
}

/// Parses `O RLY?` and the lines of its block from line `pos` on: `YA RLY` and its
/// statements, any `MEBBE <expr>` parts, an optional `NO WAI` part, and `OIC`. Gives
/// the block and the index of the next unread line (see `parse_o_rly_spec`).
pub fn parse_o_rly_block(tokens: &[Token], lines: &[Vec<char>], pos: usize) -> (r: Result<(ORlyBlock, usize), AppError>)
    requires
        pos <= lines@.len(),
    ensures
        r matches Ok((blk, p)) ==> parse_o_rly_spec(token_views(tokens@), views(lines@), pos as int) == Ok::<(StatementModel, int), AppErrorModel>(
            (o_rly_view(blk), p as int),
        ) && pos < p <= lines@.len(),
        r matches Err(e) ==> parse_o_rly_spec(token_views(tokens@), views(lines@), pos as int) == Err::<(StatementModel, int), AppErrorModel>(e@),
    decreases lines@.len() - pos, 2int,
{
    if !(tokens.len() == 3 && tokens[0].is_keyword(Keyword::O) && tokens[1].is_keyword(Keyword::Rly) && matches!(tokens[2], Token::QuestionMark)) {
        return Err(AppError::ORlyParseError);
    }
    if pos >= lines.len() {
        return Err(AppError::ORlyBlockMustHaveYaRly);
    }
    let yt = tokens_of_line(lines, pos)?;
    if !(yt.len() == 2 && yt[0].is_keyword(Keyword::Ya) && yt[1].is_keyword(Keyword::Rly)) {
        return Err(AppError::ORlyBlockMustHaveYaRly);
    }
    let empty: Vec<Statement> = Vec::new();
    assert(stmt_views(empty) =~= Seq::<StatementModel>::empty());
    let (ya, b, p) = sub_block_from(lines, pos + 1, empty)?;
    let no_mebbes: Vec<MebbeBlock> = Vec::new();
    assert(mebbe_views(no_mebbes) =~= Seq::<MebbeModel>::empty());
    o_rly_rest_from(lines, p, b, ya, no_mebbes)
}

/// The type a keyword names.
pub open spec fn type_named(t: TokenModel) -> Option<CastTypes> {
    match t {
        TokenModel::Keyword(Keyword::Troof) => Some(CastTypes::Troof),
        TokenModel::Keyword(Keyword::Yarn) => Some(CastTypes::Yarn),
        TokenModel::Keyword(Keyword::Numbr) => Some(CastTypes::Numbr),
        TokenModel::Keyword(Keyword::Numbar) => Some(CastTypes::Numbar),
        TokenModel::Keyword(Keyword::Noob) => Some(CastTypes::Noob),
        _ => None,
    }
}

/// `I HAS A <name> ITZ A <type>` (or `ITZ <type>`) declares `<name>` with the type's
/// default value: the initial expression evaluates, in any scopes, to FAIL for TROOF,
/// the empty YARN, NUMBR 0, NUMBAR 0.0, and NOOB for NOOB.
pub proof fn law_typed_declaration_starts_at_default(
    name: Seq<char>,
    ty: TokenModel,
    with_a: bool,
    scopes: Seq<Seq<(Seq<char>, ValueModel)>>,
)
    requires
        type_named(ty) is Some,
    ensures
        ({
            let head = seq![
                TokenModel::Keyword(Keyword::I),
                TokenModel::Keyword(Keyword::Has),
                TokenModel::Keyword(Keyword::A),
                TokenModel::Identifier(name),
                TokenModel::Keyword(Keyword::Itz),
            ];
            let ts = if with_a {
                head + seq![TokenModel::Keyword(Keyword::A), ty]
            } else {
                head.push(ty)
            };
            &&& i_has_a(ts) matches Ok(StatementModel::IHasA(id, e))
            &&& i_has_a(ts)->Ok_0->IHasA_0 == IdentModel::Identifier(name)
            &&& eval(scopes, i_has_a(ts)->Ok_0->IHasA_1) == Ok::<ValueModel, AppErrorModel>(default_of(type_named(ty)->0))
        }),
{
    let head = seq![
        TokenModel::Keyword(Keyword::I),
        TokenModel::Keyword(Keyword::Has),
        TokenModel::Keyword(Keyword::A),
        TokenModel::Identifier(name),
        TokenModel::Keyword(Keyword::Itz),
    ];
    let ts = if with_a {
        head + seq![TokenModel::Keyword(Keyword::A), ty]
    } else {
        head.push(ty)
    };
    assert(ts[2] == TokenModel::Keyword(Keyword::A));
    assert(ts[3] == TokenModel::Identifier(name));
    assert(ts[4] == TokenModel::Keyword(Keyword::Itz));
    if with_a {
        assert(ts[5] == TokenModel::Keyword(Keyword::A));
        assert(ts[6] == ty);
        assert(ts.len() == 7);
    } else {
        assert(ts[5] == ty);
        assert(ts.len() == 6);
    }
    assert(interpolate_from(scopes, Seq::<char>::empty(), 0) == Ok::<Seq<char>, AppErrorModel>(Seq::<char>::empty()));
}

} // verus!
