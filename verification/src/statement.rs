//! Statements: what one line (or one block of lines) of a program does.

use vstd::prelude::*;
use crate::decimal::Decimal;
use crate::expression::{CastTypes, Expr, ExprModel, IdentModel, IdentifierExpr, copy_exprs, expr_views, ident_view};
use crate::types::Value;
use crate::types::identifier::Identifier;

verus! {

/// A statement.
#[derive(Debug)]
pub enum Statement {
    Hai(Decimal),
    Visible(Vec<Expr>, bool),
    IHasA(IdentifierExpr, Expr),
    HowIzI(IdentifierExpr, Vec<IdentifierExpr>, Vec<Statement>),
    VarRIIzFunc(IdentifierExpr, Identifier, Vec<Expr>),
    IIz(IdentifierExpr, Vec<Expr>),
    FoundYr(Expr),
    Gtfo,
    KThxBye,
    CanHasLib(IdentifierExpr),
    Gimmeh(IdentifierExpr),
    Rassignment(IdentifierExpr, Expr),
    Recast(IdentifierExpr, CastTypes),
    Expr(Expr),
    ORly(ORlyBlock),
}

/// `O RLY?` with its `YA RLY` statements, its `MEBBE` blocks and its `NO WAI`
/// statements.
#[derive(Debug)]
pub struct ORlyBlock {
    pub ya_rly_block: Vec<Statement>,
    pub mebbe_blocks: Vec<MebbeBlock>,
    pub no_wai_block: Vec<Statement>,
}

/// `MEBBE <expr>` and the statements it guards.
#[derive(Debug)]
pub struct MebbeBlock {
    pub expr: Expr,
    pub statements: Vec<Statement>,
}

/// A `WTF?` switch: its `OMG` cases and its `OMGWTF` default.
#[derive(Debug)]
pub struct WtfBlock {
    pub omg_blocks: Vec<OmgBlock>,
    pub omgwtf_block: Vec<Statement>,
}

/// One `OMG <value>` case of a switch.
#[derive(Debug)]
pub struct OmgBlock {
    pub condition: Value,
    pub statements: Vec<Statement>,
    pub has_gtfo: bool,
}

/// A statement with its parts taken by their views.
pub enum StatementModel {
    Hai((int, int)),
    Visible(Seq<ExprModel>, bool),
    IHasA(IdentModel, ExprModel),
    HowIzI(IdentModel, Seq<IdentModel>, Seq<StatementModel>),
    VarRIIzFunc(IdentModel, Seq<char>, Seq<ExprModel>),
    IIz(IdentModel, Seq<ExprModel>),
    FoundYr(ExprModel),
    Gtfo,
    KThxBye,
    CanHasLib(IdentModel),
    Gimmeh(IdentModel),
    Rassignment(IdentModel, ExprModel),
    Recast(IdentModel, CastTypes),
    Expr(ExprModel),
    ORly(Seq<StatementModel>, Seq<MebbeModel>, Seq<StatementModel>),
}

/// A `MEBBE` block by its views.
pub struct MebbeModel {
    pub expr: ExprModel,
    pub statements: Seq<StatementModel>,
}

/// The views of a vector of name expressions.
pub open spec fn ident_views(v: Vec<IdentifierExpr>) -> Seq<IdentModel> {
    v@.map_values(|e: IdentifierExpr| ident_view(e))
}

pub open spec fn stmt_views(v: Vec<Statement>) -> Seq<StatementModel>
    decreases v,
{
    Seq::new(
        v@.len(),
        |i: int|
            {
                if 0 <= i < v@.len() {
                    proof {
                        assert(decreases_to!(v => v@));
                        vstd::seq::axiom_seq_index_decreases(v@, i);
                    }
                    stmt_view(v@[i])
                } else {
                    StatementModel::Gtfo
                }
            },
    )
}

pub open spec fn mebbe_views(v: Vec<MebbeBlock>) -> Seq<MebbeModel>
    decreases v,
{
    Seq::new(
        v@.len(),
        |i: int|
            {
                if 0 <= i < v@.len() {
                    proof {
                        assert(decreases_to!(v => v@));
                        vstd::seq::axiom_seq_index_decreases(v@, i);
                    }
                    MebbeModel {
                        expr: v@[i].expr@,
                        statements: stmt_views(v@[i].statements),
                    }
                } else {
                    MebbeModel { expr: ExprModel::Noob, statements: seq![] }
                }
            },
    )
}

pub open spec fn stmt_view(s: Statement) -> StatementModel
    decreases s,
{
    match s {
        Statement::Hai(d) => StatementModel::Hai(d@),
        Statement::Visible(es, b) => StatementModel::Visible(expr_views(es), b),
        Statement::IHasA(id, e) => StatementModel::IHasA(id@, e@),
        Statement::HowIzI(id, ps, body) => StatementModel::HowIzI(id@, ident_views(ps), stmt_views(body)),
        Statement::VarRIIzFunc(id, f, es) => StatementModel::VarRIIzFunc(id@, f@, expr_views(es)),
        Statement::IIz(id, es) => StatementModel::IIz(id@, expr_views(es)),
        Statement::FoundYr(e) => StatementModel::FoundYr(e@),
        Statement::Gtfo => StatementModel::Gtfo,
        Statement::KThxBye => StatementModel::KThxBye,
        Statement::CanHasLib(id) => StatementModel::CanHasLib(id@),
        Statement::Gimmeh(id) => StatementModel::Gimmeh(id@),
        Statement::Rassignment(id, e) => StatementModel::Rassignment(id@, e@),
        Statement::Recast(id, t) => StatementModel::Recast(id@, t),
        Statement::Expr(e) => StatementModel::Expr(e@),
        Statement::ORly(b) => StatementModel::ORly(
            stmt_views(b.ya_rly_block),
            mebbe_views(b.mebbe_blocks),
            stmt_views(b.no_wai_block),
        ),
    }
}

/// An `O RLY?` block as the statement model it makes.
pub open spec fn o_rly_view(b: ORlyBlock) -> StatementModel {
    StatementModel::ORly(stmt_views(b.ya_rly_block), mebbe_views(b.mebbe_blocks), stmt_views(b.no_wai_block))
}

/// A parsed line: its statement, if it had one, by its view.
pub open spec fn opt_stmt_view(s: Option<Statement>) -> Option<StatementModel> {
    match s {
        Some(st) => Some(st@),
        None => None,
    }
}

impl View for Statement {
    type V = StatementModel;

    open spec fn view(&self) -> StatementModel {
        stmt_view(*self)
    }
}

pub proof fn lemma_stmt_views(v: Vec<Statement>)
    ensures
        stmt_views(v).len() == v@.len(),
        forall|k: int| 0 <= k < v@.len() ==> #[trigger] stmt_views(v)[k] == v@[k]@,
{
}

pub proof fn lemma_mebbe_views(v: Vec<MebbeBlock>)
    ensures
        mebbe_views(v).len() == v@.len(),
        forall|k: int|
            0 <= k < v@.len() ==> #[trigger] mebbe_views(v)[k] == (MebbeModel {
                expr: v@[k].expr@,
                statements: stmt_views(v@[k].statements),
            }),
{
}


impl Statement {
    /// A deep copy.
    pub fn copy(&self) -> (r: Statement)
        ensures
            r@ == self@,
        decreases self,
    {
        match self {
            Statement::Hai(d) => Statement::Hai(d.copy()),
            Statement::Visible(es, b) => Statement::Visible(copy_exprs(es), *b),
            Statement::IHasA(id, e) => Statement::IHasA(id.copy(), e.copy()),
            Statement::HowIzI(id, ps, body) => Statement::HowIzI(id.copy(), copy_idents(ps), copy_stmts(body)),
            Statement::VarRIIzFunc(id, f, es) => Statement::VarRIIzFunc(id.copy(), f.copy(), copy_exprs(es)),
            Statement::IIz(id, es) => Statement::IIz(id.copy(), copy_exprs(es)),
            Statement::FoundYr(e) => Statement::FoundYr(e.copy()),
            Statement::Gtfo => Statement::Gtfo,
            Statement::KThxBye => Statement::KThxBye,
            Statement::CanHasLib(id) => Statement::CanHasLib(id.copy()),
            Statement::Gimmeh(id) => Statement::Gimmeh(id.copy()),
            Statement::Rassignment(id, e) => Statement::Rassignment(id.copy(), e.copy()),
            Statement::Recast(id, t) => Statement::Recast(id.copy(), *t),
            Statement::Expr(e) => Statement::Expr(e.copy()),
            Statement::ORly(b) => Statement::ORly(
                ORlyBlock {
                    ya_rly_block: copy_stmts(&b.ya_rly_block),
                    mebbe_blocks: copy_mebbes(&b.mebbe_blocks),
                    no_wai_block: copy_stmts(&b.no_wai_block),
                },
            ),
        }
    }
}

/// A deep copy of a vector of name expressions.
pub fn copy_idents(v: &Vec<IdentifierExpr>) -> (r: Vec<IdentifierExpr>)
    ensures
        ident_views(r) == ident_views(*v),
{
    let mut r: Vec<IdentifierExpr> = Vec::new();
    let mut i: usize = 0;
    while i < v.len()
        invariant
            i <= v@.len(),
            ident_views(r) == ident_views(*v).take(i as int),
        decreases v@.len() - i,
    {
        let ghost before = ident_views(r);
        let e = v[i].copy();
        r.push(e);
        assert(ident_views(r) =~= before.push(e@));
        assert(ident_views(*v).take(i + 1) =~= ident_views(*v).take(i as int).push(ident_views(*v)[i as int]));
        i = i + 1;
    }
    assert(ident_views(*v).take(i as int) =~= ident_views(*v));
    r
}

/// A deep copy of a vector of statements.
pub fn copy_stmts(v: &Vec<Statement>) -> (r: Vec<Statement>)
    ensures
        stmt_views(r) == stmt_views(*v),
    decreases v,
{
    let mut r: Vec<Statement> = Vec::new();
    let mut i: usize = 0;
    proof {
        lemma_stmt_views(*v);
    }
    while i < v.len()
        invariant
            i <= v@.len(),
            stmt_views(*v).len() == v@.len(),
            forall|k: int| 0 <= k < v@.len() ==> #[trigger] stmt_views(*v)[k] == v@[k]@,
            stmt_views(r) == stmt_views(*v).take(i as int),
        decreases v@.len() - i,
    {
        proof {
            assert(decreases_to!(*v => v@));
            vstd::seq::axiom_seq_index_decreases(v@, i as int);
            lemma_stmt_views(r);
        }
        let ghost before = stmt_views(r);
        let e = v[i].copy();
        r.push(e);
        proof {
            lemma_stmt_views(r);
            assert(stmt_views(r) =~= before.push(e@));
            assert(stmt_views(*v).take(i + 1) =~= stmt_views(*v).take(i as int).push(stmt_views(*v)[i as int]));
        }
        i = i + 1;
    }
    assert(stmt_views(*v).take(i as int) =~= stmt_views(*v));
    r
}

/// A deep copy of a vector of `MEBBE` blocks.
pub fn copy_mebbes(v: &Vec<MebbeBlock>) -> (r: Vec<MebbeBlock>)
    ensures
        mebbe_views(r) == mebbe_views(*v),
    decreases v,
{
    let mut r: Vec<MebbeBlock> = Vec::new();
    let mut i: usize = 0;
    proof {
        lemma_mebbe_views(*v);
    }
    while i < v.len()
        invariant
            i <= v@.len(),
            mebbe_views(*v).len() == v@.len(),
            forall|k: int|
                0 <= k < v@.len() ==> #[trigger] mebbe_views(*v)[k] == (MebbeModel {
                    expr: v@[k].expr@,
                    statements: stmt_views(v@[k].statements),
                }),
            mebbe_views(r) == mebbe_views(*v).take(i as int),
        decreases v@.len() - i,
    {
        proof {
            assert(decreases_to!(*v => v@));
            vstd::seq::axiom_seq_index_decreases(v@, i as int);
            assert(decreases_to!(v@[i as int] => v@[i as int].statements));
            lemma_mebbe_views(r);
        }
        let ghost before = mebbe_views(r);
        let m = MebbeBlock { expr: v[i].expr.copy(), statements: copy_stmts(&v[i].statements) };
        r.push(m);
        proof {
            lemma_mebbe_views(r);
            assert(mebbe_views(r) =~= before.push(mebbe_views(*v)[i as int]));
            assert(mebbe_views(*v).take(i + 1) =~= mebbe_views(*v).take(i as int).push(mebbe_views(*v)[i as int]));
        }
        i = i + 1;
    }
    assert(mebbe_views(*v).take(i as int) =~= mebbe_views(*v));
    r
}

} // verus!
