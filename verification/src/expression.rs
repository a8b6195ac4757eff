//! Expressions and their parser.

use vstd::prelude::*;
use crate::app_error::{AppError, AppErrorModel};
use crate::keywords::Keyword;
use crate::lexer::{Token, TokenModel, Tokens, token_views};
use crate::types::identifier::Identifier;
use crate::types::primitive::{Numbar, Numbr, Troof, Yarn};

verus! {

/// BOTH SAEM and DIFFRINT.
#[derive(Debug, Clone, Copy, PartialEq, Eq, Structural)]
pub enum ComparisonOp {
    BothSaem,
    Diffrint,
}

/// The boolean operators.
#[derive(Debug, Clone, Copy, PartialEq, Eq, Structural)]
pub enum BoolOp {
    Both,
    Either,
    Won,
    Not,
    All,
    Any,
}

/// The arithmetic operators.
#[derive(Debug, Clone, Copy, PartialEq, Eq, Structural)]
pub enum MathOp {
    Sum,
    Diff,
    Produkt,
    Quoshunt,
    Mod,
    Biggr,
    Smallr,
}

/// The types a value can be cast to.
#[derive(Debug, Clone, Copy, PartialEq, Eq, Structural)]
pub enum CastTypes {
    Troof,
    Yarn,
    Numbr,
    Numbar,
    Noob,
}

/// The comparison operator a keyword names.
pub open spec fn comparison_op_of(t: TokenModel) -> Option<ComparisonOp> {
    match t {
        TokenModel::Keyword(Keyword::Both) => Some(ComparisonOp::BothSaem),
        TokenModel::Keyword(Keyword::Diffrint) => Some(ComparisonOp::Diffrint),
        _ => None,
    }
}

/// The boolean operator a keyword names.
pub open spec fn bool_op_of(t: TokenModel) -> Option<BoolOp> {
    match t {
        TokenModel::Keyword(Keyword::Both) => Some(BoolOp::Both),
        TokenModel::Keyword(Keyword::Either) => Some(BoolOp::Either),
        TokenModel::Keyword(Keyword::Won) => Some(BoolOp::Won),
        TokenModel::Keyword(Keyword::Not) => Some(BoolOp::Not),
        TokenModel::Keyword(Keyword::All) => Some(BoolOp::All),
        TokenModel::Keyword(Keyword::Any) => Some(BoolOp::Any),
        _ => None,
    }
}

/// The arithmetic operator a keyword names.
pub open spec fn math_op_of(t: TokenModel) -> Option<MathOp> {
    match t {
        TokenModel::Keyword(Keyword::Sum) => Some(MathOp::Sum),
        TokenModel::Keyword(Keyword::Diff) => Some(MathOp::Diff),
        TokenModel::Keyword(Keyword::Produkt) => Some(MathOp::Produkt),
        TokenModel::Keyword(Keyword::Quoshunt) => Some(MathOp::Quoshunt),
        TokenModel::Keyword(Keyword::Mod) => Some(MathOp::Mod),
        TokenModel::Keyword(Keyword::Biggr) => Some(MathOp::Biggr),
        TokenModel::Keyword(Keyword::Smallr) => Some(MathOp::Smallr),
        _ => None,
    }
}

impl ComparisonOp {
    /// The operator a token names; any other token is an `InvalidExpression`.
    pub fn try_from(token: &Token) -> (r: Result<ComparisonOp, AppError>)
        ensures
            r matches Ok(op) ==> comparison_op_of(token@) == Some(op),
            r matches Err(e) ==> comparison_op_of(token@) is None && e@ == AppErrorModel::InvalidExpression(seq![token@]),
    {
        match token {
            Token::Keyword(Keyword::Both) => Ok(ComparisonOp::BothSaem),
            Token::Keyword(Keyword::Diffrint) => Ok(ComparisonOp::Diffrint),
            _ => Err(AppError::InvalidExpression(single_tokens(token))),
        }
    }
}

impl BoolOp {
    /// The operator a token names; any other token is an `InvalidExpression`.
    pub fn try_from(token: &Token) -> (r: Result<BoolOp, AppError>)
        ensures
            r matches Ok(op) ==> bool_op_of(token@) == Some(op),
            r matches Err(e) ==> bool_op_of(token@) is None && e@ == AppErrorModel::InvalidExpression(seq![token@]),
    {
        match token {
            Token::Keyword(Keyword::Both) => Ok(BoolOp::Both),
            Token::Keyword(Keyword::Either) => Ok(BoolOp::Either),
            Token::Keyword(Keyword::Won) => Ok(BoolOp::Won),
            Token::Keyword(Keyword::Not) => Ok(BoolOp::Not),
            Token::Keyword(Keyword::All) => Ok(BoolOp::All),
            Token::Keyword(Keyword::Any) => Ok(BoolOp::Any),
            _ => Err(AppError::InvalidExpression(single_tokens(token))),
        }
    }
}

impl MathOp {
    /// The operator a token names; any other token is an `InvalidExpression`.
    pub fn try_from(token: &Token) -> (r: Result<MathOp, AppError>)
        ensures
            r matches Ok(op) ==> math_op_of(token@) == Some(op),
            r matches Err(e) ==> math_op_of(token@) is None && e@ == AppErrorModel::InvalidExpression(seq![token@]),
    {
        match token {
            Token::Keyword(Keyword::Sum) => Ok(MathOp::Sum),
            Token::Keyword(Keyword::Diff) => Ok(MathOp::Diff),
            Token::Keyword(Keyword::Produkt) => Ok(MathOp::Produkt),
            Token::Keyword(Keyword::Quoshunt) => Ok(MathOp::Quoshunt),
            Token::Keyword(Keyword::Mod) => Ok(MathOp::Mod),
            Token::Keyword(Keyword::Biggr) => Ok(MathOp::Biggr),
            Token::Keyword(Keyword::Smallr) => Ok(MathOp::Smallr),
            _ => Err(AppError::InvalidExpression(single_tokens(token))),
        }
    }
}

fn single_tokens(token: &Token) -> (r: Tokens)
    ensures
        r@ == seq![token@],
{
    let mut v: Vec<Token> = Vec::new();
    v.push(token.copy());
    let r = Tokens(v);
    assert(r@ =~= seq![token@]);
    r
}

/// An arithmetic expression.
#[derive(Debug)]
pub struct MathsExpr {
    pub op: MathOp,
    pub left: Box<Expr>,
    pub right: Box<Expr>,
}

/// A comparison.
#[derive(Debug)]
pub struct ComparisonExpr {
    pub op: ComparisonOp,
    pub left: Box<Expr>,
    pub right: Box<Expr>,
}

/// An expression.
#[derive(Debug)]
pub enum Expr {
    Numbar(Numbar),
    Numbr(Numbr),
    Yarn(Yarn),
    Troof(Troof),
    Variable(IdentifierExpr),
    Noob,
    Math(MathsExpr),
    Bool { op: BoolOp, args: Vec<Expr> },
    Comparison(ComparisonExpr),
    Negation(Box<Expr>),
    Smoosh(Vec<Expr>),
    Maek(Box<Expr>, CastTypes),
}

/// A name given directly, or computed (`SRS` followed by an expression).
#[derive(Debug)]
pub enum IdentifierExpr {
    Identifier(Identifier),
    Srs(Box<Expr>),
}

/// An expression with its leaves taken by their views.
pub enum ExprModel {
    Numbar((int, int)),
    Numbr(i64),
    Yarn(Seq<char>),
    Troof(bool),
    Variable(IdentModel),
    Noob,
    Math(MathOp, Box<ExprModel>, Box<ExprModel>),
    Bool(BoolOp, Seq<ExprModel>),
    Comparison(ComparisonOp, Box<ExprModel>, Box<ExprModel>),
    Negation(Box<ExprModel>),
    Smoosh(Seq<ExprModel>),
    Maek(Box<ExprModel>, CastTypes),
}

/// A name expression with its leaves taken by their views.
pub enum IdentModel {
    Identifier(Seq<char>),
    Srs(Box<ExprModel>),
}

/// The views of the expressions of a vector.
pub open spec fn expr_views(v: Vec<Expr>) -> Seq<ExprModel>
    decreases v,
{
    Seq::new(
        v@.len(),
        |i: int|
            {
                if 0 <= i < v@.len() {
                    proof {
                        assert(decreases_to!(v => v@));
                        vstd::seq::axiom_seq_index_decreases(v@, i);
                    }
                    expr_view(v@[i])
                } else {
                    ExprModel::Noob
                }
            },
    )
}

pub open spec fn expr_view(e: Expr) -> ExprModel
    decreases e,
{
    match e {
        Expr::Numbar(n) => ExprModel::Numbar(n@),
        Expr::Numbr(n) => ExprModel::Numbr(n@),
        Expr::Yarn(y) => ExprModel::Yarn(y@),
        Expr::Troof(t) => ExprModel::Troof(t@),
        Expr::Variable(id) => ExprModel::Variable(ident_view(id)),
        Expr::Noob => ExprModel::Noob,
        Expr::Math(m) => ExprModel::Math(
            m.op,
            Box::new(expr_view(*m.left)),
            Box::new(expr_view(*m.right)),
        ),
        Expr::Bool { op, args } => ExprModel::Bool(op, expr_views(args)),
        Expr::Comparison(c) => ExprModel::Comparison(
            c.op,
            Box::new(expr_view(*c.left)),
            Box::new(expr_view(*c.right)),
        ),
        Expr::Negation(b) => ExprModel::Negation(Box::new(expr_view(*b))),
        Expr::Smoosh(args) => ExprModel::Smoosh(expr_views(args)),
        Expr::Maek(b, t) => ExprModel::Maek(Box::new(expr_view(*b)), t),
    }
}

pub open spec fn ident_view(e: IdentifierExpr) -> IdentModel
    decreases e,
{
    match e {
        IdentifierExpr::Identifier(id) => IdentModel::Identifier(id@),
        IdentifierExpr::Srs(b) => IdentModel::Srs(Box::new(expr_view(*b))),
    }
}

impl View for Expr {
    type V = ExprModel;

    open spec fn view(&self) -> ExprModel {
        expr_view(*self)
    }
}

impl View for IdentifierExpr {
    type V = IdentModel;

    open spec fn view(&self) -> IdentModel {
        ident_view(*self)
    }
}

/// The expression a single token stands for.
pub open spec fn expr_of_token(t: TokenModel) -> Result<ExprModel, AppErrorModel> {
    match t {
        TokenModel::Numbar(n) => Ok(ExprModel::Numbar(n)),
        TokenModel::Numbr(n) => Ok(ExprModel::Numbr(n)),
        TokenModel::Yarn(s) => Ok(ExprModel::Yarn(s)),
        TokenModel::Troof(b) => Ok(ExprModel::Troof(b)),
        TokenModel::Keyword(Keyword::Noob) => Ok(ExprModel::Noob),
        TokenModel::Identifier(id) => Ok(ExprModel::Variable(IdentModel::Identifier(id))),
        TokenModel::Keyword(_) => Err(AppErrorModel::TokenCannotBeExpression(t)),
        TokenModel::QuestionMark => Err(AppErrorModel::QuestionMarkIsNotAnExpression),
        TokenModel::ExclamationMark => Err(AppErrorModel::ExclamationMarkIsNotAnExpression),
    }
}

pub open spec fn is_kw(ts: Seq<TokenModel>, j: int, k: Keyword) -> bool {
    0 <= j < ts.len() && ts[j] == TokenModel::Keyword(k)
}

/// Parses an expression from index `i` of the tokens: the expression and how many
/// tokens it took, or the error.
pub open spec fn parse_expr(ts: Seq<TokenModel>, i: int) -> Result<(ExprModel, int), AppErrorModel>
    decreases ts.len() - i, 1int,
{
    if i < 0 || i > ts.len() {
        Err(AppErrorModel::MissingExpression(seq![]))
    } else if ts.len() - i == 1 {
        match expr_of_token(ts[i]) {
            Ok(e) => Ok((e, 1)),
            Err(e) => Err(e),
        }
    } else if is_kw(ts, i, Keyword::Both) && is_kw(ts, i + 1, Keyword::Saem) {
        match parse_comparison(ts, i) {
            Ok((op, l, r, c)) => Ok((ExprModel::Comparison(op, Box::new(l), Box::new(r)), c)),
            Err(e) => Err(e),
        }
    } else if is_kw(ts, i, Keyword::Both) && is_kw(ts, i + 1, Keyword::Of) {
        match parse_bool(ts, i) {
            Ok((op, args, c)) => Ok((ExprModel::Bool(op, args), c)),
            Err(e) => Err(e),
        }
    } else if is_kw(ts, i, Keyword::Not) {
        match parse_expr(ts, i + 1) {
            Ok((e, c)) => Ok((ExprModel::Negation(Box::new(e)), c + 1)),
            Err(e) => Err(e),
        }
    } else if i < ts.len() && ts[i] is Keyword && math_op_of(ts[i]) is Some {
        match parse_math(ts, i) {
            Ok((op, l, r, c)) => Ok((ExprModel::Math(op, Box::new(l), Box::new(r)), c)),
            Err(e) => Err(e),
        }
    } else if i < ts.len() && ts[i] is Keyword && bool_op_of(ts[i]) is Some {
        match parse_bool(ts, i) {
            Ok((op, args, c)) => Ok((ExprModel::Bool(op, args), c)),
            Err(e) => Err(e),
        }
    } else if i < ts.len() && ts[i] is Keyword && comparison_op_of(ts[i]) is Some {
        match parse_comparison(ts, i) {
            Ok((op, l, r, c)) => Ok((ExprModel::Comparison(op, Box::new(l), Box::new(r)), c)),
            Err(e) => Err(e),
        }
    } else if i < ts.len() {
        match expr_of_token(ts[i]) {
            Ok(e) => Ok((e, 1)),
            Err(e) => Err(e),
        }
    } else {
        Err(AppErrorModel::MissingExpression(ts.skip(i)))
    }
}

/// `OP OF <expr> AN <expr>` for an arithmetic operator at index `i`.
pub open spec fn parse_math(ts: Seq<TokenModel>, i: int) -> Result<(MathOp, ExprModel, ExprModel, int), AppErrorModel>
    decreases ts.len() - i, 0int,
{
    if i < 0 || i >= ts.len() {
        Err(AppErrorModel::MissingExpression(seq![]))
    } else if math_op_of(ts[i]) is None {
        Err(AppErrorModel::InvalidExpression(seq![ts[i]]))
    } else if !is_kw(ts, i + 1, Keyword::Of) {
        Err(AppErrorModel::InvalidExpression(ts.skip(i)))
    } else {
        match parse_expr(ts, i + 2) {
            Err(e) => Err(e),
            Ok((left, cl)) => if cl < 0 || !is_kw(ts, i + 2 + cl, Keyword::An) {
                Err(AppErrorModel::InvalidExpression(ts.skip(i)))
            } else {
                match parse_expr(ts, i + 3 + cl) {
                    Err(e) => Err(e),
                    Ok((right, cr)) => Ok((math_op_of(ts[i])->0, left, right, 3 + cl + cr)),
                }
            },
        }
    }
}

/// `BOTH SAEM <expr> AN <expr>` or `DIFFRINT <expr> AN <expr>` at index `i`.
pub open spec fn parse_comparison(ts: Seq<TokenModel>, i: int) -> Result<(ComparisonOp, ExprModel, ExprModel, int), AppErrorModel>
    decreases ts.len() - i, 0int,
{
    if i < 0 || i >= ts.len() {
        Err(AppErrorModel::MissingExpression(seq![]))
    } else if comparison_op_of(ts[i]) is None {
        Err(AppErrorModel::InvalidExpression(seq![ts[i]]))
    } else {
        let from = if is_kw(ts, i + 1, Keyword::Saem) {
            2int
        } else {
            1int
        };
        match parse_expr(ts, i + from) {
            Err(e) => Err(e),
            Ok((left, cl)) => if cl < 0 || !is_kw(ts, i + from + cl, Keyword::An) {
                Err(AppErrorModel::InvalidExpression(ts.skip(i)))
            } else {
                match parse_expr(ts, i + from + 1 + cl) {
                    Err(e) => Err(e),
                    Ok((right, cr)) => Ok(
                        (comparison_op_of(ts[i])->0, left, right, from + 1 + cl + cr),
                    ),
                }
            },
        }
    }
}

/// A boolean expression at index `i`: `NOT` and one operand; `BOTH`, `EITHER` and
/// `WON` with `OF <expr> AN <expr>`; `ALL` and `ANY` with `OF`, then operands (each
/// optionally after `AN`) up to and including `MKAY`.
pub open spec fn parse_bool(ts: Seq<TokenModel>, i: int) -> Result<(BoolOp, Seq<ExprModel>, int), AppErrorModel>
    decreases ts.len() - i, 0int,
{
    if i < 0 || i >= ts.len() {
        Err(AppErrorModel::MissingExpression(seq![]))
    } else if bool_op_of(ts[i]) is None {
        Err(AppErrorModel::InvalidExpression(seq![ts[i]]))
    } else {
        let op = bool_op_of(ts[i])->0;
        if op == BoolOp::Not {
            if i + 2 > ts.len() {
                Err(AppErrorModel::MissingExpression(seq![]))
            } else {
            match parse_expr(ts, i + 2) {
                Err(e) => Err(e),
                Ok((e, c)) => Ok((op, seq![e], c + 1)),
            }
            }
        } else if op == BoolOp::Both || op == BoolOp::Either || op == BoolOp::Won {
            if !is_kw(ts, i + 1, Keyword::Of) {
                Err(AppErrorModel::InvalidExpression(ts.skip(i)))
            } else {
                match parse_expr(ts, i + 2) {
                    Err(e) => Err(e),
                    Ok((left, cl)) => if cl < 0 || !is_kw(ts, i + 2 + cl, Keyword::An) {
                        Err(AppErrorModel::InvalidExpression(ts.skip(i)))
                    } else {
                        match parse_expr(ts, i + 3 + cl) {
                            Err(e) => Err(e),
                            Ok((right, cr)) => Ok((op, seq![left, right], 3 + cl + cr)),
                        }
                    },
                }
            }
        } else {
            if !is_kw(ts, i + 1, Keyword::Of) {
                Err(AppErrorModel::InvalidExpression(ts.skip(i)))
            } else {
                match parse_bool_args(ts, i, 2, seq![]) {
                    Err(e) => Err(e),
                    Ok((args, c)) => Ok((op, args, c)),
                }
            }
        }
    }
}

/// The operands of `ALL OF` / `ANY OF` from offset `rel` (after index `i`), after
/// `acc`: expressions, each optionally preceded by `AN`, up to and including the
/// `MKAY` that ends them; the result is the operands and the offset after `MKAY`.
/// Running out of tokens before `MKAY` is an error.
pub open spec fn parse_bool_args(
    ts: Seq<TokenModel>,
    i: int,
    rel: int,
    acc: Seq<ExprModel>,
) -> Result<(Seq<ExprModel>, int), AppErrorModel>
    decreases ts.len() - (i + rel), 2int,
{
    let p = i + rel;
    if p < 0 || p >= ts.len() {
        Err(AppErrorModel::TroofExpressionMustEndWithMkay)
    } else if ts[p] == TokenModel::Keyword(Keyword::Mkay) {
        Ok((acc, rel + 1))
    } else if ts[p] == TokenModel::Keyword(Keyword::An) {
        parse_bool_args(ts, i, rel + 1, acc)
    } else {
        match parse_expr(ts, p) {
            Err(e) => Err(e),
            Ok((e, c)) => if c > 0 && p + c <= ts.len() {
                parse_bool_args(ts, i, rel + c, acc.push(e))
            } else {
                Err(AppErrorModel::TroofExpressionMustEndWithMkay)
            },
        }
    }
}

pub proof fn lemma_expr_views(v: Vec<Expr>)
    ensures
        expr_views(v).len() == v@.len(),
        forall|k: int| 0 <= k < v@.len() ==> #[trigger] expr_views(v)[k] == v@[k]@,
{
}

/// A copy of the tokens from index `start` on.
pub fn tokens_from(ts: &[Token], start: usize) -> (r: Tokens)
    requires
        start <= ts@.len(),
    ensures
        r@ == token_views(ts@).skip(start as int),
{
    let mut v: Vec<Token> = Vec::new();
    let mut k: usize = start;
    while k < ts.len()
        invariant
            start <= k <= ts@.len(),
            token_views(v@) == token_views(ts@).subrange(start as int, k as int),
        decreases ts@.len() - k,
    {
        let ghost old_v = token_views(v@);
        let t = ts[k].copy();
        v.push(t);
        assert(token_views(v@) =~= old_v.push(t@));
        k = k + 1;
        assert(token_views(v@) =~= token_views(ts@).subrange(start as int, k as int));
    }
    let r = Tokens(v);
    assert(r@ =~= token_views(ts@).skip(start as int));
    r
}

fn tok_is(ts: &[Token], j: usize, k: Keyword) -> (r: bool)
    ensures
        r == is_kw(token_views(ts@), j as int, k),
{
    j < ts.len() && ts[j].is_keyword(k)
}

impl Expr {
    /// The expression a single token stands for: a literal, NOOB, or a variable; any
    /// other keyword and the marks `?` and `!` are errors.
    pub fn try_from(token: &Token) -> (r: Result<Expr, AppError>)
        ensures
            r matches Ok(e) ==> expr_of_token(token@) == Ok::<ExprModel, AppErrorModel>(e@),
            r matches Err(e) ==> expr_of_token(token@) == Err::<ExprModel, AppErrorModel>(e@),
    {
        match token {
            Token::Numbar(n) => {
                let c = n.copy();
                let e = Expr::Numbar(c);
                assert(e@ == ExprModel::Numbar(n@));
                Ok(e)
            },
            Token::Numbr(n) => Ok(Expr::Numbr(n.copy())),
            Token::Yarn(s) => Ok(Expr::Yarn(s.copy())),
            Token::Troof(b) => Ok(Expr::Troof(b.copy())),
            Token::Keyword(Keyword::Noob) => Ok(Expr::Noob),
            Token::Identifier(ident) => {
                let i = IdentifierExpr::Identifier(ident.copy());
                assert(i@ == IdentModel::Identifier(ident@));
                let e = Expr::Variable(i);
                assert(e@ == ExprModel::Variable(IdentModel::Identifier(ident@)));
                Ok(e)
            },
            Token::Keyword(_) => Err(AppError::TokenCannotBeExpression(token.copy())),
            Token::QuestionMark => Err(AppError::QuestionMarkIsNotAnExpression),
            Token::ExclamationMark => Err(AppError::ExclamationMarkIsNotAnExpression),
        }
    }

    /// Parses an expression at the start of the tokens: the expression and how many
    /// tokens it took (see `parse_expr`).
    pub fn parse(tokens: &[Token]) -> (r: Result<(Expr, usize), AppError>)
        ensures
            r matches Ok((e, c)) ==> parse_expr(token_views(tokens@), 0) == Ok::<(ExprModel, int), AppErrorModel>((e@, c as int))
                && 1 <= c <= tokens@.len(),
            r matches Err(e) ==> parse_expr(token_views(tokens@), 0) == Err::<(ExprModel, int), AppErrorModel>(e@),
    {
        Expr::parse_at(tokens, 0)
    }

    /// Parses an expression at index `start` of the tokens (see `parse_expr`).
    pub fn parse_at(tokens: &[Token], start: usize) -> (r: Result<(Expr, usize), AppError>)
        requires
            start <= tokens@.len(),
        ensures
            r matches Ok((e, c)) ==> parse_expr(token_views(tokens@), start as int) == Ok::<(ExprModel, int), AppErrorModel>((e@, c as int))
                && 1 <= c <= tokens@.len() - start,
            r matches Err(e) ==> parse_expr(token_views(tokens@), start as int) == Err::<(ExprModel, int), AppErrorModel>(e@),
        decreases tokens@.len() - start, 1int,
    {
        let ghost ts = token_views(tokens@);
        let n = tokens.len() - start;
        if n == 1 {
            let e = Expr::try_from(&tokens[start])?;
            return Ok((e, 1));
        }
        if tok_is(tokens, start, Keyword::Both) && tok_is(tokens, start + 1, Keyword::Saem) {
            let (comp_expr, consumed) = Expr::parse_comparison_expr(tokens, start)?;
            return Ok((Expr::Comparison(comp_expr), consumed));
        }
        if tok_is(tokens, start, Keyword::Both) && tok_is(tokens, start + 1, Keyword::Of) {
            let (op, exprs, consumed) = Expr::parse_bool_expr(tokens, start)?;
            return Ok((Expr::Bool { op, args: exprs }, consumed));
        }
        if n == 0 {
            return Err(AppError::MissingExpression(tokens_from(tokens, start)));
        }
        match &tokens[start] {
            Token::Keyword(Keyword::Not) => {
                let (negation, consumed) = Expr::parse_at(tokens, start + 1)?;
                Ok((Expr::Negation(Box::new(negation)), consumed + 1))
            },
            Token::Keyword(k) => {
                if MathOp::try_from(&tokens[start]).is_ok() {
                    let (maths_expr, consumed) = Expr::parse_math_expr(tokens, start)?;
                    Ok((Expr::Math(maths_expr), consumed))
                } else if BoolOp::try_from(&tokens[start]).is_ok() {
                    let (op, exprs, consumed) = Expr::parse_bool_expr(tokens, start)?;
                    Ok((Expr::Bool { op, args: exprs }, consumed))
                } else if ComparisonOp::try_from(&tokens[start]).is_ok() {
                    let (comp_expr, consumed) = Expr::parse_comparison_expr(tokens, start)?;
                    Ok((Expr::Comparison(comp_expr), consumed))
                } else {
                    let e = Expr::try_from(&tokens[start])?;
                    Ok((e, 1))
                }
            },
            token => {
                let e = Expr::try_from(token)?;
                Ok((e, 1))
            },
        }
    }

    fn parse_math_expr(tokens: &[Token], start: usize) -> (r: Result<(MathsExpr, usize), AppError>)
        requires
            start < tokens@.len(),
        ensures
            r matches Ok((m, c)) ==> parse_math(token_views(tokens@), start as int) == Ok::<(MathOp, ExprModel, ExprModel, int), AppErrorModel>(
                (m.op, m.left@, m.right@, c as int),
            ) && 1 <= c <= tokens@.len() - start,
            r matches Err(e) ==> parse_math(token_views(tokens@), start as int) == Err::<(MathOp, ExprModel, ExprModel, int), AppErrorModel>(e@),
        decreases tokens@.len() - start, 0int,
    {
        let op = MathOp::try_from(&tokens[start])?;
        if !tok_is(tokens, start + 1, Keyword::Of) {
            return Err(AppError::InvalidExpression(tokens_from(tokens, start)));
        }
        let (left, consumed_left) = Expr::parse_at(tokens, start + 2)?;
        if !tok_is(tokens, start + 2 + consumed_left, Keyword::An) {
            return Err(AppError::InvalidExpression(tokens_from(tokens, start)));
        }
        let (right, consumed_right) = Expr::parse_at(tokens, start + 3 + consumed_left)?;
        Ok((MathsExpr { op, left: Box::new(left), right: Box::new(right) }, 3 + consumed_left + consumed_right))
    }

    fn parse_comparison_expr(tokens: &[Token], start: usize) -> (r: Result<(ComparisonExpr, usize), AppError>)
        requires
            start < tokens@.len(),
        ensures
            r matches Ok((m, c)) ==> parse_comparison(token_views(tokens@), start as int) == Ok::<(ComparisonOp, ExprModel, ExprModel, int), AppErrorModel>(
                (m.op, m.left@, m.right@, c as int),
            ) && 1 <= c <= tokens@.len() - start,
            r matches Err(e) ==> parse_comparison(token_views(tokens@), start as int) == Err::<(ComparisonOp, ExprModel, ExprModel, int), AppErrorModel>(e@),
        decreases tokens@.len() - start, 0int,
    {
        let op = ComparisonOp::try_from(&tokens[start])?;
        let consume_from: usize = if tok_is(tokens, start + 1, Keyword::Saem) {
            2
        } else {
            1
        };
        let (left, consumed_left) = Expr::parse_at(tokens, start + consume_from)?;
        if !tok_is(tokens, start + consume_from + consumed_left, Keyword::An) {
            return Err(AppError::InvalidExpression(tokens_from(tokens, start)));
        }
        let (right, consumed_right) = Expr::parse_at(tokens, start + consume_from + 1 + consumed_left)?;
        Ok((
            ComparisonExpr { op, left: Box::new(left), right: Box::new(right) },
            consume_from + 1 + consumed_left + consumed_right,
        ))
    }

    fn parse_bool_expr(tokens: &[Token], start: usize) -> (r: Result<(BoolOp, Vec<Expr>, usize), AppError>)
        requires
            start < tokens@.len(),
            token_views(tokens@)[start as int] != TokenModel::Keyword(Keyword::Not),
        ensures
            r matches Ok((op, args, c)) ==> parse_bool(token_views(tokens@), start as int) == Ok::<(BoolOp, Seq<ExprModel>, int), AppErrorModel>(
                (op, expr_views(args), c as int),
            ) && 1 <= c <= tokens@.len() - start,
            r matches Err(e) ==> parse_bool(token_views(tokens@), start as int) == Err::<(BoolOp, Seq<ExprModel>, int), AppErrorModel>(e@),
        decreases tokens@.len() - start, 0int,
    {
        let ghost ts = token_views(tokens@);
        let op = BoolOp::try_from(&tokens[start])?;
        match op {
            BoolOp::Not => {
                proof {
                    assert(false);
                }
                Err(AppError::TroofExpressionHasInvalidNumberOfArguments)
            },
            BoolOp::Both | BoolOp::Either | BoolOp::Won => {
                if !tok_is(tokens, start + 1, Keyword::Of) {
                    return Err(AppError::InvalidExpression(tokens_from(tokens, start)));
                }
                let (left, consumed_left) = Expr::parse_at(tokens, start + 2)?;
                if !tok_is(tokens, start + 2 + consumed_left, Keyword::An) {
                    return Err(AppError::InvalidExpression(tokens_from(tokens, start)));
                }
                let (right, consumed_right) = Expr::parse_at(tokens, start + 3 + consumed_left)?;
                let ghost lv = left@;
                let ghost rv = right@;
                let mut args: Vec<Expr> = Vec::new();
                args.push(left);
                args.push(right);
                proof {
                    lemma_expr_views(args);
                    assert(expr_views(args) =~= seq![lv, rv]);
                }
                Ok((op, args, 3 + consumed_left + consumed_right))
            },
            BoolOp::All | BoolOp::Any => {
                if !tok_is(tokens, start + 1, Keyword::Of) {
                    return Err(AppError::InvalidExpression(tokens_from(tokens, start)));
                }
                let empty: Vec<Expr> = Vec::new();
                proof {
                    lemma_expr_views(empty);
                    assert(expr_views(empty) =~= Seq::<ExprModel>::empty());
                }
                let (exprs, total_consumed) = Expr::parse_bool_args(tokens, start, 2, empty)?;
                Ok((op, exprs, total_consumed))
            },
        }
    }
}

impl Expr {
    /// The operands of `ALL OF` / `ANY OF` from offset `rel` after `start`, after `acc`
    /// (see `parse_bool_args`).
    fn parse_bool_args(tokens: &[Token], start: usize, rel: usize, acc: Vec<Expr>) -> (r: Result<(Vec<Expr>, usize), AppError>)
        requires
            start + rel <= tokens@.len(),
        ensures
            r matches Ok((args, c)) ==> parse_bool_args(token_views(tokens@), start as int, rel as int, expr_views(acc)) == Ok::<(Seq<ExprModel>, int), AppErrorModel>(
                (expr_views(args), c as int),
            ) && rel < c <= tokens@.len() - start,
            r matches Err(e) ==> parse_bool_args(token_views(tokens@), start as int, rel as int, expr_views(acc)) == Err::<(Seq<ExprModel>, int), AppErrorModel>(e@),
        decreases tokens@.len() - (start + rel), 2int,
    {
        let n = tokens.len();
        let p = start + rel;
        if p >= n {
            return Err(AppError::TroofExpressionMustEndWithMkay);
        }
        if tokens[p].is_keyword(Keyword::Mkay) {
            return Ok((acc, rel + 1));
        }
        if tokens[p].is_keyword(Keyword::An) {
            return Expr::parse_bool_args(tokens, start, rel + 1, acc);
        }
        let (expr, consumed) = Expr::parse_at(tokens, p)?;
        let mut acc = acc;
        let ghost before = expr_views(acc);
        let ghost ev = expr@;
        proof {
            lemma_expr_views(acc);
        }
        acc.push(expr);
        proof {
            lemma_expr_views(acc);
            assert(expr_views(acc) =~= before.push(ev));
        }
        Expr::parse_bool_args(tokens, start, rel + consumed, acc)
    }
}

impl IdentifierExpr {
    /// Parses a name at index `start` (see `parse_ident`).
    pub fn parse_at(tokens: &[Token], start: usize) -> (r: Result<(IdentifierExpr, usize), AppError>)
        requires
            start <= tokens@.len(),
        ensures
            r matches Ok((e, c)) ==> parse_ident(token_views(tokens@), start as int) == Ok::<(IdentModel, int), AppErrorModel>((e@, c as int))
                && 1 <= c <= tokens@.len() - start,
            r matches Err(e) ==> parse_ident(token_views(tokens@), start as int) == Err::<(IdentModel, int), AppErrorModel>(e@),
    {
        if start < tokens.len() {
            match &tokens[start] {
                Token::Keyword(Keyword::Srs) => {
                    let (expr, consumed) = Expr::parse_at(tokens, start + 1)?;
                    return Ok((IdentifierExpr::Srs(Box::new(expr)), consumed + 1));
                },
                Token::Identifier(id) => {
                    return Ok((IdentifierExpr::Identifier(id.copy()), 1));
                },
                _ => {},
            }
        }
        Err(AppError::InvalidIdentifierExpr(tokens_from(tokens, start)))
    }

    /// Parses a name at the start of the tokens: an identifier, or `SRS` and an
    /// expression whose value names the variable.
    pub fn parse(tokens: &[Token]) -> (r: Result<(IdentifierExpr, usize), AppError>)
        ensures
            r matches Ok((e, c)) ==> parse_ident(token_views(tokens@), 0) == Ok::<(IdentModel, int), AppErrorModel>((e@, c as int))
                && 1 <= c <= tokens@.len(),
            r matches Err(e) ==> parse_ident(token_views(tokens@), 0) == Err::<(IdentModel, int), AppErrorModel>(e@),
    {
        IdentifierExpr::parse_at(tokens, 0)
    }

    /// A name given directly.
    pub fn from_identifier(value: Identifier) -> (r: IdentifierExpr)
        ensures
            r@ == IdentModel::Identifier(value@),
    {
        IdentifierExpr::Identifier(value)
    }
}

/// Parses a name at index `i`: an identifier token, or `SRS` and an expression.
pub open spec fn parse_ident(ts: Seq<TokenModel>, i: int) -> Result<(IdentModel, int), AppErrorModel> {
    if 0 <= i < ts.len() && ts[i] == TokenModel::Keyword(Keyword::Srs) {
        match parse_expr(ts, i + 1) {
            Ok((e, c)) => Ok((IdentModel::Srs(Box::new(e)), c + 1)),
            Err(e) => Err(e),
        }
    } else if 0 <= i < ts.len() && ts[i] is Identifier {
        Ok((IdentModel::Identifier(ts[i]->Identifier_0), 1))
    } else {
        Err(AppErrorModel::InvalidIdentifierExpr(ts.skip(i)))
    }
}

impl Expr {
    /// A deep copy.
    pub fn copy(&self) -> (r: Expr)
        ensures
            r@ == self@,
        decreases self,
    {
        match self {
            Expr::Numbar(n) => Expr::Numbar(n.copy()),
            Expr::Numbr(n) => Expr::Numbr(n.copy()),
            Expr::Yarn(y) => Expr::Yarn(y.copy()),
            Expr::Troof(t) => Expr::Troof(t.copy()),
            Expr::Variable(id) => Expr::Variable(id.copy()),
            Expr::Noob => Expr::Noob,
            Expr::Math(m) => {
                let l = (*m.left).copy();
                let r = (*m.right).copy();
                Expr::Math(MathsExpr { op: m.op, left: Box::new(l), right: Box::new(r) })
            },
            Expr::Bool { op, args } => Expr::Bool { op: *op, args: copy_exprs(args) },
            Expr::Comparison(c) => {
                let l = (*c.left).copy();
                let r = (*c.right).copy();
                Expr::Comparison(ComparisonExpr { op: c.op, left: Box::new(l), right: Box::new(r) })
            },
            Expr::Negation(b) => Expr::Negation(Box::new((**b).copy())),
            Expr::Smoosh(args) => Expr::Smoosh(copy_exprs(args)),
            Expr::Maek(b, t) => Expr::Maek(Box::new((**b).copy()), *t),
        }
    }
}

impl IdentifierExpr {
    /// A deep copy.
    pub fn copy(&self) -> (r: IdentifierExpr)
        ensures
            r@ == self@,
        decreases self,
    {
        match self {
            IdentifierExpr::Identifier(id) => IdentifierExpr::Identifier(id.copy()),
            IdentifierExpr::Srs(b) => IdentifierExpr::Srs(Box::new((**b).copy())),
        }
    }
}

/// A deep copy of a vector of expressions.
pub fn copy_exprs(v: &Vec<Expr>) -> (r: Vec<Expr>)
    ensures
        expr_views(r) == expr_views(*v),
    decreases v,
{
    let mut r: Vec<Expr> = Vec::new();
    let mut i: usize = 0;
    proof {
        lemma_expr_views(*v);
    }
    while i < v.len()
        invariant
            i <= v@.len(),
            expr_views(*v).len() == v@.len(),
            forall|k: int| 0 <= k < v@.len() ==> #[trigger] expr_views(*v)[k] == v@[k]@,
            expr_views(r) == expr_views(*v).take(i as int),
        decreases v@.len() - i,
    {
        proof {
            assert(decreases_to!(*v => v@));
            vstd::seq::axiom_seq_index_decreases(v@, i as int);
            lemma_expr_views(r);
        }
        let ghost before = expr_views(r);
        let e = v[i].copy();
        r.push(e);
        proof {
            lemma_expr_views(r);
            assert(expr_views(r) =~= before.push(e@));
            assert(expr_views(*v).take(i + 1) =~= expr_views(*v).take(i as int).push(expr_views(*v)[i as int]));
        }
        i = i + 1;
    }
    assert(expr_views(*v).take(i as int) =~= expr_views(*v));
    r
}

/// A token that is by itself an operand: a value or a name.
pub open spec fn is_plain_operand(t: TokenModel) -> bool {
    t is Numbar || t is Numbr || t is Yarn || t is Troof || t is Identifier
}

/// The operands that plain operand tokens stand for.
pub open spec fn plain_operands(ops: Seq<TokenModel>) -> Seq<ExprModel> {
    ops.map_values(|t: TokenModel| expr_of_token(t)->Ok_0)
}

proof fn lemma_bool_args_plain(ts: Seq<TokenModel>, ops: Seq<TokenModel>, j: int)
    requires
        forall|k: int| 0 <= k < ops.len() ==> is_plain_operand(#[trigger] ops[k]),
        0 <= j <= ops.len(),
        ts.len() >= ops.len() + 3,
        forall|k: int| 0 <= k < ops.len() ==> ts[2 + k] == ops[k],
        ts[2 + ops.len() as int] == TokenModel::Keyword(Keyword::Mkay),
    ensures
        parse_bool_args(ts, 0, 2 + j, plain_operands(ops.take(j))) == Ok::<(Seq<ExprModel>, int), AppErrorModel>(
            (plain_operands(ops), ops.len() + 3int),
        ),
    decreases ops.len() - j,
{
    if j == ops.len() {
        assert(ops.take(j) =~= ops);
    } else {
        let t = ops[j];
        assert(ts[2 + j] == t);
        assert(is_plain_operand(t));
        assert(parse_expr(ts, 2 + j) == Ok::<(ExprModel, int), AppErrorModel>((expr_of_token(t)->Ok_0, 1)));
        assert(plain_operands(ops.take(j)).push(expr_of_token(t)->Ok_0) =~= plain_operands(ops.take(j + 1)));
        lemma_bool_args_plain(ts, ops, j + 1);
    }
}

/// `ALL OF` or `ANY OF`, then operands that are each one value or name, then `MKAY`:
/// every operand is an argument, in order, and every token up to and including
/// `MKAY` is taken, whatever follows.
pub proof fn law_all_any_take_every_operand(kw: Keyword, ops: Seq<TokenModel>, rest: Seq<TokenModel>)
    requires
        kw == Keyword::All || kw == Keyword::Any,
        forall|k: int| 0 <= k < ops.len() ==> is_plain_operand(#[trigger] ops[k]),
    ensures
        ({
            let ts = seq![TokenModel::Keyword(kw), TokenModel::Keyword(Keyword::Of)] + ops + seq![TokenModel::Keyword(Keyword::Mkay)] + rest;
            let op = if kw == Keyword::All { BoolOp::All } else { BoolOp::Any };
            parse_bool(ts, 0) == Ok::<(BoolOp, Seq<ExprModel>, int), AppErrorModel>((op, plain_operands(ops), ops.len() + 3int))
        }),
{
    let ts = seq![TokenModel::Keyword(kw), TokenModel::Keyword(Keyword::Of)] + ops + seq![TokenModel::Keyword(Keyword::Mkay)] + rest;
    assert forall|k: int| 0 <= k < ops.len() implies ts[2 + k] == ops[k] by {}
    assert(ts[2 + ops.len() as int] == TokenModel::Keyword(Keyword::Mkay));
    assert(ops.take(0) =~= Seq::<TokenModel>::empty());
    assert(plain_operands(ops.take(0)) =~= Seq::<ExprModel>::empty());
    lemma_bool_args_plain(ts, ops, 0);
}

} // verus!
