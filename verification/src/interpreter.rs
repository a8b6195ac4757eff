//! Running a program. The interpreter is a machine that takes one step at a time:
//! each step runs one statement (or leaves a finished block) and says what the
//! caller must do: print a text, read a line for `GIMMEH`, go on, or stop.

use vstd::prelude::*;
use crate::app_error::{AppError, AppErrorModel};
use crate::evaluation::{
    distinct_names, is_scope_error, law_updates_keep_names_distinct, lemma_push_new_name, law_eval_has_a_scope, lemma_eval_from_no_scope_error, lemma_resolve_no_scope_error,
    cast_variable, eval, eval_expr, lemma_lookup_after_insert, lemma_lookup_after_insert_other, lemma_lookup_after_push, lemma_lookup_after_set, lookup_variable, eval_exprs, eval_from, find_name, find_variable, get_variable, insert_in, lemma_find_name,
    lookup_in, opt_value_view, resolve, resolve_identifier_expr, scope_view, scopes_view, set_in, variable_cast,
};
use crate::expression::{CastTypes, Expr, ExprModel, IdentModel, IdentifierExpr, expr_views};
use crate::lexer::{normalise_source, normalised, tokenize};
use crate::parser::{parse_line, parse_line_spec};
use crate::statement::{
    MebbeBlock, MebbeModel, ORlyBlock, Statement, StatementModel, copy_stmts, ident_views, lemma_mebbe_views, lemma_stmt_views, mebbe_views,
    stmt_views,
};
use crate::text::{chars_of, lines, split_lines, string_of, views};
use crate::types::{Value, ValueModel, value_as_troof, value_as_yarn, value_views};
use crate::types::identifier::Identifier;
use crate::types::primitive::Yarn;

verus! {

// ---------------------------------------------------------------------------
// The machine.
// ---------------------------------------------------------------------------

/// A defined function: its parameter names and its body.
pub struct FunctionModel {
    pub params: Seq<Seq<char>>,
    pub body: Seq<StatementModel>,
}

/// What a frame runs: a block of statements (the program, a branch of `O RLY?`), a
/// function called by `I IZ` (its result is dropped), or a function whose result
/// goes into the named variable of the caller's scope.
pub enum FrameKindModel {
    Block,
    Call,
    CallInto(Seq<char>),
}

/// A frame: its statements, the index of the next one to run, and what it runs.
pub struct FrameModel {
    pub stmts: Seq<StatementModel>,
    pub next: int,
    pub kind: FrameKindModel,
}

/// The state of the interpreter: IT, the variable scopes (innermost last), the
/// functions, the frames (innermost last), and the variable that waits for a line
/// of input, if any.
pub struct InterpreterModel {
    pub it: Option<ValueModel>,
    pub scopes: Seq<Seq<(Seq<char>, ValueModel)>>,
    pub functions: Seq<(Seq<char>, FunctionModel)>,
    pub frames: Seq<FrameModel>,
    pub awaiting: Option<Seq<char>>,
}

/// What the caller of a step must do: nothing (step again), print a text (with a
/// newline or not), read a line and hand it over, nothing more (the program is
/// over), or report an error (the program is over).
pub enum ActionModel {
    Continue,
    Print(Seq<char>, bool),
    ReadLine,
    Done,
    Error(AppErrorModel),
}

/// The state with other scopes.
pub open spec fn with_scopes(m: InterpreterModel, scopes: Seq<Seq<(Seq<char>, ValueModel)>>) -> InterpreterModel {
    InterpreterModel { it: m.it, scopes, functions: m.functions, frames: m.frames, awaiting: m.awaiting }
}

/// The state with other frames.
pub open spec fn with_frames(m: InterpreterModel, frames: Seq<FrameModel>) -> InterpreterModel {
    InterpreterModel { it: m.it, scopes: m.scopes, functions: m.functions, frames, awaiting: m.awaiting }
}

/// The state after an error: no frame left and no input awaited.
pub open spec fn stopped(m: InterpreterModel) -> InterpreterModel {
    InterpreterModel { it: m.it, scopes: m.scopes, functions: m.functions, frames: seq![], awaiting: None }
}

/// A step that fails with `e`.
pub open spec fn fail(m: InterpreterModel, e: AppErrorModel) -> (InterpreterModel, ActionModel) {
    (stopped(m), ActionModel::Error(e))
}

/// The scopes with the innermost one dropped (none are left unchanged).
pub open spec fn pop_scope(scopes: Seq<Seq<(Seq<char>, ValueModel)>>) -> Seq<Seq<(Seq<char>, ValueModel)>> {
    if scopes.len() > 0 {
        scopes.drop_last()
    } else {
        scopes
    }
}

/// The scopes with the variable `name` of the innermost scope set to `v`.
pub open spec fn set_current(scopes: Seq<Seq<(Seq<char>, ValueModel)>>, name: Seq<char>, v: ValueModel) -> Seq<Seq<(Seq<char>, ValueModel)>> {
    scopes.update(scopes.len() - 1, set_in(scopes.last(), name, v))
}

/// The texts of the values from index `k` on, joined; the first value that cannot be
/// written as a YARN stops.
pub open spec fn yarns_from(vs: Seq<ValueModel>, k: int) -> Result<Seq<char>, AppErrorModel>
    decreases vs.len() - k,
{
    if k < 0 || k >= vs.len() {
        Ok(seq![])
    } else {
        match value_as_yarn(vs[k]) {
            Err(e) => Err(e),
            Ok(y) => match yarns_from(vs, k + 1) {
                Err(e) => Err(e),
                Ok(rest) => Ok(y + rest),
            },
        }
    }
}

/// The names of the name expressions from index `k` on; the first error stops.
pub open spec fn resolve_from(scopes: Seq<Seq<(Seq<char>, ValueModel)>>, ids: Seq<IdentModel>, k: int) -> Result<Seq<Seq<char>>, AppErrorModel>
    decreases ids.len() - k,
{
    if k < 0 || k >= ids.len() {
        Ok(seq![])
    } else {
        match resolve(scopes, ids[k]) {
            Err(e) => Err(e),
            Ok(n) => match resolve_from(scopes, ids, k + 1) {
                Err(e) => Err(e),
                Ok(ns) => Ok(seq![n] + ns),
            },
        }
    }
}

/// The scope of a call: each parameter from index `k` on, in order, bound to its
/// argument (a later parameter of the same name wins).
pub open spec fn bind_params(ps: Seq<Seq<char>>, vs: Seq<ValueModel>, k: int, acc: Seq<(Seq<char>, ValueModel)>) -> Seq<(Seq<char>, ValueModel)>
    decreases ps.len() - k,
{
    if k < 0 || k >= ps.len() || k >= vs.len() {
        acc
    } else {
        bind_params(ps, vs, k + 1, insert_in(acc, ps[k], vs[k]))
    }
}

/// The `MEBBE` block, from index `k` on, whose condition is the first to be true.
pub open spec fn pick_mebbe(scopes: Seq<Seq<(Seq<char>, ValueModel)>>, ms: Seq<MebbeModel>, k: int) -> Result<Option<Seq<StatementModel>>, AppErrorModel>
    decreases ms.len() - k,
{
    if k < 0 || k >= ms.len() {
        Ok(None)
    } else {
        match eval(scopes, ms[k].expr) {
            Err(e) => Err(e),
            Ok(v) => if value_as_troof(v) {
                Ok(Some(ms[k].statements))
            } else {
                pick_mebbe(scopes, ms, k + 1)
            },
        }
    }
}

/// Runs a block of statements next.
pub open spec fn enter_block(m: InterpreterModel, stmts: Seq<StatementModel>) -> (InterpreterModel, ActionModel) {
    (with_frames(m, m.frames.push(FrameModel { stmts, next: 0, kind: FrameKindModel::Block })), ActionModel::Continue)
}

/// Calls a function with the argument values `vs`: a new scope with the parameters,
/// and its body next.
pub open spec fn call_function(m: InterpreterModel, f: FunctionModel, vs: Seq<ValueModel>, kind: FrameKindModel) -> (InterpreterModel, ActionModel) {
    (
        InterpreterModel {
            it: m.it,
            scopes: m.scopes.push(bind_params(f.params, vs, 0, seq![])),
            functions: m.functions,
            frames: m.frames.push(FrameModel { stmts: f.body, next: 0, kind }),
            awaiting: m.awaiting,
        },
        ActionModel::Continue,
    )
}

/// Calls the function `f` (if it is defined) with the values of `args`, checking
/// their number.
pub open spec fn call_named(m: InterpreterModel, f: Seq<char>, args: Seq<ExprModel>, kind: FrameKindModel) -> (InterpreterModel, ActionModel) {
    match lookup_in(m.functions, f) {
        None => fail(m, AppErrorModel::FunctionDoesNotExist(f)),
        Some(def) => match eval_from(m.scopes, args, 0) {
            Err(e) => fail(m, e),
            Ok(vs) => if def.params.len() != vs.len() {
                fail(m, AppErrorModel::NotEnoughArgsForFunction)
            } else {
                call_function(m, def, vs, kind)
            },
        },
    }
}

/// `VISIBLE`: the texts of the values, joined, are printed.
pub open spec fn visible_step(m: InterpreterModel, es: Seq<ExprModel>, no_new_line: bool) -> (InterpreterModel, ActionModel) {
    match eval_from(m.scopes, es, 0) {
        Err(e) => fail(m, e),
        Ok(vs) => match yarns_from(vs, 0) {
            Err(e) => fail(m, e),
            Ok(t) => (m, ActionModel::Print(t, !no_new_line)),
        },
    }
}

/// `I HAS A`: a new variable of the current scope (it must not be there yet).
pub open spec fn declare_step(m: InterpreterModel, id: IdentModel, e: ExprModel) -> (InterpreterModel, ActionModel) {
    let scopes = m.scopes;
    match resolve(scopes, id) {
        Err(err) => fail(m, err),
        Ok(name) => match eval(scopes, e) {
            Err(err) => fail(m, err),
            Ok(v) => if scopes.len() == 0 {
                fail(m, AppErrorModel::CouldNotGetCurrentVariableScope)
            } else if lookup_in(scopes.last(), name) is Some {
                fail(m, AppErrorModel::CannotRedeclareVariable(name))
            } else {
                (with_scopes(m, scopes.update(scopes.len() - 1, scopes.last().push((name, v)))), ActionModel::Continue)
            },
        },
    }
}

/// `HOW IZ I`: the function is defined (a definition of the same name is replaced).
pub open spec fn define_step(m: InterpreterModel, id: IdentModel, ps: Seq<IdentModel>, body: Seq<StatementModel>) -> (InterpreterModel, ActionModel) {
    match resolve(m.scopes, id) {
        Err(err) => fail(m, err),
        Ok(name) => match resolve_from(m.scopes, ps, 0) {
            Err(err) => fail(m, err),
            Ok(params) => (
                InterpreterModel {
                    it: m.it,
                    scopes: m.scopes,
                    functions: insert_in(m.functions, name, FunctionModel { params, body }),
                    frames: m.frames,
                    awaiting: m.awaiting,
                },
                ActionModel::Continue,
            ),
        },
    }
}

/// `GIMMEH`: a line of input is awaited for a variable of the current scope.
pub open spec fn gimmeh_step(m: InterpreterModel, id: IdentModel) -> (InterpreterModel, ActionModel) {
    match resolve(m.scopes, id) {
        Err(err) => fail(m, err),
        Ok(name) => if m.scopes.len() == 0 {
            fail(m, AppErrorModel::CouldNotGetCurrentVariableScope)
        } else if lookup_in(m.scopes.last(), name) is None {
            fail(m, AppErrorModel::VariableDoesNotExist(name))
        } else {
            (
                InterpreterModel { it: m.it, scopes: m.scopes, functions: m.functions, frames: m.frames, awaiting: Some(name) },
                ActionModel::ReadLine,
            )
        },
    }
}

/// `<name> R <expr>`: a variable of the current scope gets a new value.
pub open spec fn assign_step(m: InterpreterModel, id: IdentModel, e: ExprModel) -> (InterpreterModel, ActionModel) {
    let scopes = m.scopes;
    match resolve(scopes, id) {
        Err(err) => fail(m, err),
        Ok(name) => match eval(scopes, e) {
            Err(err) => fail(m, err),
            Ok(v) => if scopes.len() == 0 {
                fail(m, AppErrorModel::CouldNotGetCurrentVariableScope)
            } else if lookup_in(scopes.last(), name) is None {
                fail(m, AppErrorModel::VariableDoesNotExist(name))
            } else {
                (with_scopes(m, set_current(scopes, name, v)), ActionModel::Continue)
            },
        },
    }
}

/// `<name> IS NOW A <type>`: a variable of the current scope is cast in place.
pub open spec fn recast_step(m: InterpreterModel, id: IdentModel, t: CastTypes) -> (InterpreterModel, ActionModel) {
    let scopes = m.scopes;
    match resolve(scopes, id) {
        Err(err) => fail(m, err),
        Ok(name) => if scopes.len() == 0 {
            fail(m, AppErrorModel::CouldNotGetCurrentVariableScope)
        } else {
            match lookup_in(scopes.last(), name) {
                None => fail(m, AppErrorModel::VariableDoesNotExist(name)),
                Some(v) => match variable_cast(v, t) {
                    Err(err) => fail(m, err),
                    Ok(c) => (with_scopes(m, set_current(scopes, name, c)), ActionModel::Continue),
                },
            }
        },
    }
}

/// A line that is an expression: its value goes into IT.
pub open spec fn expr_step(m: InterpreterModel, e: ExprModel) -> (InterpreterModel, ActionModel) {
    match eval(m.scopes, e) {
        Err(err) => fail(m, err),
        Ok(v) => (
            InterpreterModel { it: Some(v), scopes: m.scopes, functions: m.functions, frames: m.frames, awaiting: m.awaiting },
            ActionModel::Continue,
        ),
    }
}

/// `O RLY?`: the `YA RLY` block when IT is true, else the block of the first `MEBBE`
/// whose condition is true, else the `NO WAI` block.
pub open spec fn o_rly_step(m: InterpreterModel, ya: Seq<StatementModel>, mebbes: Seq<MebbeModel>, no_wai: Seq<StatementModel>) -> (InterpreterModel, ActionModel) {
    match m.it {
        None => fail(m, AppErrorModel::NoValueInItVariable),
        Some(it) => if value_as_troof(it) {
            enter_block(m, ya)
        } else {
            match pick_mebbe(m.scopes, mebbes, 0) {
                Err(err) => fail(m, err),
                Ok(Some(stmts)) => enter_block(m, stmts),
                Ok(None) => enter_block(m, no_wai),
            }
        },
    }
}

/// Runs one statement (not a return from a function body).
pub open spec fn run_statement(m: InterpreterModel, s: StatementModel) -> (InterpreterModel, ActionModel) {
    match s {
        StatementModel::Hai(_) => (m, ActionModel::Continue),
        StatementModel::CanHasLib(_) => (m, ActionModel::Continue),
        StatementModel::KThxBye => (m, ActionModel::Continue),
        StatementModel::Visible(es, no_new_line) => visible_step(m, es, no_new_line),
        StatementModel::IHasA(id, e) => declare_step(m, id, e),
        StatementModel::HowIzI(id, ps, body) => define_step(m, id, ps, body),
        StatementModel::IIz(id, args) => match resolve(m.scopes, id) {
            Err(err) => fail(m, err),
            Ok(f) => call_named(m, f, args, FrameKindModel::Call),
        },
        StatementModel::VarRIIzFunc(var, f, args) => match resolve(m.scopes, var) {
            Err(err) => fail(m, err),
            Ok(name) => call_named(m, f, args, FrameKindModel::CallInto(name)),
        },
        StatementModel::FoundYr(_) => fail(m, AppErrorModel::CannotReturnFromFunctionOutsideFunction),
        StatementModel::Gtfo => fail(m, AppErrorModel::CannotReturnFromFunctionOutsideFunction),
        StatementModel::Gimmeh(id) => gimmeh_step(m, id),
        StatementModel::Rassignment(id, e) => assign_step(m, id, e),
        StatementModel::Recast(id, t) => recast_step(m, id, t),
        StatementModel::Expr(e) => expr_step(m, e),
        StatementModel::ORly(ya, mebbes, no_wai) => o_rly_step(m, ya, mebbes, no_wai),
    }
}

/// Leaves a function: its frame and its scope go.
pub open spec fn leave_call(m: InterpreterModel) -> InterpreterModel {
    InterpreterModel {
        it: m.it,
        scopes: pop_scope(m.scopes),
        functions: m.functions,
        frames: m.frames.drop_last(),
        awaiting: m.awaiting,
    }
}

/// `GTFO` or `FOUND YR <expr>` directly in the body of a function of the given kind:
/// the call ends; for a call whose result goes into a variable, `GTFO` sets it to NOOB
/// and `FOUND YR` to the value of the expression (evaluated in the function's scope).
pub open spec fn return_from(m: InterpreterModel, s: StatementModel, kind: FrameKindModel) -> (InterpreterModel, ActionModel) {
    match kind {
        FrameKindModel::CallInto(var) => match s {
            StatementModel::FoundYr(e) => match eval(m.scopes, e) {
                Err(err) => fail(m, err),
                Ok(v) => if m.scopes.len() < 2 {
                    fail(m, AppErrorModel::CouldNotGetCurrentVariableScope)
                } else {
                    let k = m.scopes.len() - 2;
                    if lookup_in(m.scopes[k], var) is None {
                        fail(m, AppErrorModel::VariableDoesNotExist(var))
                    } else {
                        (leave_call(with_scopes(m, m.scopes.update(k, set_in(m.scopes[k], var, v)))), ActionModel::Continue)
                    }
                },
            },
            _ => {
                let m2 = leave_call(m);
                if m2.scopes.len() == 0 {
                    fail(m2, AppErrorModel::CouldNotGetCurrentVariableScope)
                } else if lookup_in(m2.scopes.last(), var) is None {
                    fail(m2, AppErrorModel::VariableDoesNotExist(var))
                } else {
                    (with_scopes(m2, set_current(m2.scopes, var, ValueModel::Noob)), ActionModel::Continue)
                }
            },
        },
        _ => (leave_call(m), ActionModel::Continue),
    }
}

/// One step of the machine: with input awaited, nothing happens; with no frame left,
/// the program is over; a finished frame is left (a function's scope goes with it);
/// else the next statement of the innermost frame runs.
pub open spec fn step_spec(m: InterpreterModel) -> (InterpreterModel, ActionModel) {
    if m.awaiting is Some {
        (m, ActionModel::ReadLine)
    } else if m.frames.len() == 0 {
        (m, ActionModel::Done)
    } else {
        let f = m.frames.last();
        if !(0 <= f.next < f.stmts.len()) {
            let scopes = if f.kind is Block {
                m.scopes
            } else {
                pop_scope(m.scopes)
            };
            (InterpreterModel { it: m.it, scopes, functions: m.functions, frames: m.frames.drop_last(), awaiting: m.awaiting }, ActionModel::Continue)
        } else {
            let s = f.stmts[f.next];
            let m1 = with_frames(m, m.frames.update(m.frames.len() - 1, FrameModel { stmts: f.stmts, next: f.next + 1, kind: f.kind }));
            if !(f.kind is Block) && (s is Gtfo || s is FoundYr) {
                return_from(m1, s, f.kind)
            } else {
                run_statement(m1, s)
            }
        }
    }
}

/// A line of input without its trailing line-break characters (`\n`, `\r`).
pub open spec fn without_line_break(s: Seq<char>) -> Seq<char>
    decreases s.len(),
{
    if s.len() > 0 && (s.last() == '\n' || s.last() == '\r') {
        without_line_break(s.drop_last())
    } else {
        s
    }
}

/// The state after a line of input is handed over: the awaiting variable (of the
/// current scope) becomes that line as a YARN.
pub open spec fn input_spec(m: InterpreterModel, line: Seq<char>) -> InterpreterModel {
    match m.awaiting {
        None => m,
        Some(name) => InterpreterModel {
            it: m.it,
            scopes: if m.scopes.len() == 0 {
                m.scopes
            } else {
                set_current(m.scopes, name, ValueModel::Yarn(without_line_break(line)))
            },
            functions: m.functions,
            frames: m.frames,
            awaiting: None,
        },
    }
}

// ---------------------------------------------------------------------------
// Loading a program.
// ---------------------------------------------------------------------------

/// The statements of the lines from index `pos` on, after `acc`; a block statement
/// takes the lines of its block.
pub open spec fn parse_program(ls: Seq<Seq<char>>, pos: int, acc: Seq<StatementModel>) -> Result<Seq<StatementModel>, AppErrorModel>
    decreases ls.len() - pos,
{
    if pos < 0 || pos >= ls.len() {
        Ok(acc)
    } else {
        match tokenize(ls[pos]) {
            Err(e) => Err(e),
            Ok(ts) => match parse_line_spec(ts, ls, pos + 1) {
                Err(e) => Err(e),
                // A parse reads lines forward only (`law_parse_line_reads_forward`); the bounds keep
                // the definition well-founded.
                Ok((s, p)) => if p <= pos || p > ls.len() {
                    Err(AppErrorModel::UnexpectedEOF)
                } else {
                    match s {
                        Some(st) => parse_program(ls, p, acc.push(st)),
                        None => parse_program(ls, p, acc),
                    }
                },
            },
        }
    }
}

/// The first statement from index `i` on that is out of place: `HAI` anywhere but
/// first, `KTHXBYE` anywhere but last.
pub open spec fn misplaced_from(stmts: Seq<StatementModel>, i: int) -> Option<AppErrorModel>
    decreases stmts.len() - i,
{
    if i < 0 || i >= stmts.len() {
        None
    } else if stmts[i] is Hai && i != 0 {
        Some(AppErrorModel::HaiMustBeFirstLine)
    } else if stmts[i] is KThxBye && i != stmts.len() - 1 {
        Some(AppErrorModel::KThxByeMustBeLastLine)
    } else {
        misplaced_from(stmts, i + 1)
    }
}

/// A program starts with `HAI` and ends with `KTHXBYE`, and has them nowhere else
/// (an empty program is accepted).
pub open spec fn check_program(stmts: Seq<StatementModel>) -> Option<AppErrorModel> {
    if stmts.len() > 0 && !(stmts[0] is Hai) {
        Some(AppErrorModel::HaiMustBeFirstLine)
    } else if stmts.len() > 0 && !(stmts.last() is KThxBye) {
        Some(AppErrorModel::KThxByeMustBeLastLine)
    } else {
        misplaced_from(stmts, 0)
    }
}

/// The statements of a program's source: normalised, split into lines, parsed and
/// checked.
pub open spec fn program_spec(source: Seq<char>) -> Result<Seq<StatementModel>, AppErrorModel> {
    match normalised(source) {
        Err(e) => Err(e),
        Ok(t) => match parse_program(lines(t), 0, seq![]) {
            Err(e) => Err(e),
            Ok(stmts) => match check_program(stmts) {
                Some(e) => Err(e),
                None => Ok(stmts),
            },
        },
    }
}

/// A new interpreter: no IT, one empty scope, no function, nothing to run.
pub open spec fn fresh() -> InterpreterModel {
    InterpreterModel { it: None, scopes: seq![seq![]], functions: seq![], frames: seq![], awaiting: None }
}

// ---------------------------------------------------------------------------
// The executable machine.
// ---------------------------------------------------------------------------

/// A defined function: its parameter names and its body.
#[derive(Debug)]
pub struct Function {
    params: Vec<Identifier>,
    body: Vec<Statement>,
}

/// What a frame runs (see `FrameKindModel`).
#[derive(Debug)]
enum FrameKind {
    Block,
    Call,
    CallInto(Identifier),
}

/// A block of statements being run, with the index of the next one.
#[derive(Debug)]
struct Frame {
    stmts: Vec<Statement>,
    next: usize,
    kind: FrameKind,
}

/// What the caller of `step` must do next.
#[derive(Debug)]
pub enum Action {
    /// Nothing: step again.
    Continue,
    /// Print the text, with a newline after it when the flag is set.
    Print(String, bool),
    /// Read a line and hand it over with `provide_input`.
    ReadLine,
    /// Nothing more: the program is over.
    Done,
    /// Report the error: the program is over.
    Error(AppError),
}

impl View for Action {
    type V = ActionModel;

    open spec fn view(&self) -> ActionModel {
        match self {
            Action::Continue => ActionModel::Continue,
            Action::Print(s, b) => ActionModel::Print(s@, *b),
            Action::ReadLine => ActionModel::ReadLine,
            Action::Done => ActionModel::Done,
            Action::Error(e) => ActionModel::Error(e@),
        }
    }
}

spec fn names_view(v: Seq<Identifier>) -> Seq<Seq<char>> {
    v.map_values(|i: Identifier| i@)
}

spec fn function_view(f: Function) -> FunctionModel {
    FunctionModel { params: names_view(f.params@), body: stmt_views(f.body) }
}

spec fn functions_view(fs: Seq<(Identifier, Function)>) -> Seq<(Seq<char>, FunctionModel)> {
    fs.map_values(|e: (Identifier, Function)| (e.0@, function_view(e.1)))
}

spec fn kind_view(k: FrameKind) -> FrameKindModel {
    match k {
        FrameKind::Block => FrameKindModel::Block,
        FrameKind::Call => FrameKindModel::Call,
        FrameKind::CallInto(id) => FrameKindModel::CallInto(id@),
    }
}

spec fn frame_view(f: Frame) -> FrameModel {
    FrameModel { stmts: stmt_views(f.stmts), next: f.next as int, kind: kind_view(f.kind) }
}

spec fn frames_view(fs: Seq<Frame>) -> Seq<FrameModel> {
    fs.map_values(|f: Frame| frame_view(f))
}

/// A LOLCODE interpreter: IT, the variable scopes, the defined functions, the frames
/// still to run, and the variable that waits for input (see `InterpreterModel`).
#[derive(Debug)]
pub struct Interpreter {
    it_variable: Option<Value>,
    variables: Vec<Vec<(Identifier, Value)>>,
    functions: Vec<(Identifier, Function)>,
    frames: Vec<Frame>,
    awaiting: Option<Identifier>,
}

impl View for Interpreter {
    type V = InterpreterModel;

    closed spec fn view(&self) -> InterpreterModel {
        InterpreterModel {
            it: opt_value_view(self.it_variable),
            scopes: scopes_view(self.variables@),
            functions: functions_view(self.functions@),
            frames: frames_view(self.frames@),
            awaiting: match self.awaiting {
                Some(id) => Some(id@),
                None => None,
            },
        }
    }
}

impl FrameKind {
    fn copy(&self) -> (r: FrameKind)
        ensures
            kind_view(r) == kind_view(*self),
    {
        match self {
            FrameKind::Block => FrameKind::Block,
            FrameKind::Call => FrameKind::Call,
            FrameKind::CallInto(id) => FrameKind::CallInto(id.copy()),
        }
    }
}

fn copy_names(v: &Vec<Identifier>) -> (r: Vec<Identifier>)
    ensures
        names_view(r@) == names_view(v@),
{
    let mut r: Vec<Identifier> = Vec::new();
    let mut i: usize = 0;
    while i < v.len()
        invariant
            i <= v@.len(),
            names_view(r@) == names_view(v@).take(i as int),
        decreases v@.len() - i,
    {
        let ghost before = names_view(r@);
        let x = v[i].copy();
        r.push(x);
        assert(names_view(r@) =~= before.push(x@));
        assert(names_view(v@).take(i + 1) =~= names_view(v@).take(i as int).push(names_view(v@)[i as int]));
        i = i + 1;
    }
    assert(names_view(v@).take(i as int) =~= names_view(v@));
    r
}

/// The variable `name` of the scope gets the value `v` (added when not there).
fn insert_variable(scope: &mut Vec<(Identifier, Value)>, name: Identifier, v: Value)
    ensures
        scope_view(final(scope)@) == insert_in(scope_view(old(scope)@), name@, v@),
{
    let k = find_variable(scope, &name);
    let ghost nv = (name@, v@);
    if k < scope.len() {
        scope[k] = (name, v);
        assert(scope_view(scope@) =~= scope_view(old(scope)@).update(k as int, nv));
    } else {
        scope.push((name, v));
        assert(scope_view(scope@) =~= scope_view(old(scope)@).push(nv));
    }
}

/// The variable `name` of the scope gets the value `v` (nothing changes when it is
/// not there).
fn set_variable(scope: &mut Vec<(Identifier, Value)>, name: Identifier, v: Value)
    ensures
        scope_view(final(scope)@) == set_in(scope_view(old(scope)@), name@, v@),
{
    let k = find_variable(scope, &name);
    let ghost nv = (name@, v@);
    if k < scope.len() {
        scope[k] = (name, v);
        assert(scope_view(scope@) =~= scope_view(old(scope)@).update(k as int, nv));
    }
}

fn find_function(fs: &Vec<(Identifier, Function)>, name: &Identifier) -> (r: usize)
    ensures
        r == find_name(functions_view(fs@), name@),
        r <= fs@.len(),
{
    let ghost es = functions_view(fs@);
    let n = fs.len();
    let mut k: usize = 0;
    while k < n && !fs[k].0.same(name)
        invariant
            k <= n == fs@.len(),
            es == functions_view(fs@),
            forall|j: int| 0 <= j < k ==> es[j].0 != name@,
        decreases n - k,
    {
        k = k + 1;
    }
    proof {
        lemma_find_name(es, name@, k as int);
    }
    k
}

/// The names of the name expressions, in order (see `resolve_from`).
fn resolve_all(scopes: &Vec<Vec<(Identifier, Value)>>, ids: &Vec<IdentifierExpr>) -> (r: Result<Vec<Identifier>, AppError>)
    ensures
        r matches Ok(ns) ==> resolve_from(scopes_view(scopes@), ident_views(*ids), 0) == Ok::<Seq<Seq<char>>, AppErrorModel>(names_view(ns@)),
        r matches Err(e) ==> resolve_from(scopes_view(scopes@), ident_views(*ids), 0) == Err::<Seq<Seq<char>>, AppErrorModel>(e@),
{
    let ghost sv = scopes_view(scopes@);
    let ghost iv = ident_views(*ids);
    let n = ids.len();
    let mut names: Vec<Identifier> = Vec::new();
    let mut i: usize = 0;
    assert(crate::evaluation::prepend_ok(names_view(names@), resolve_from(sv, iv, 0)) =~= resolve_from(sv, iv, 0)) by {
        match resolve_from(sv, iv, 0) {
            Ok(x) => assert(names_view(names@) + x =~= x),
            Err(_) => {},
        }
    }
    while i < n
        invariant
            i <= n == ids@.len(),
            sv == scopes_view(scopes@),
            iv == ident_views(*ids),
            resolve_from(sv, iv, 0) == crate::evaluation::prepend_ok(names_view(names@), resolve_from(sv, iv, i as int)),
        decreases n - i,
    {
        let ghost before = names_view(names@);
        assert(iv[i as int] == ids@[i as int]@);
        let name = resolve_identifier_expr(scopes, &ids[i])?;
        let ghost nv = name@;
        names.push(name);
        assert(names_view(names@) =~= before.push(nv));
        i = i + 1;
        assert(resolve_from(sv, iv, 0) == crate::evaluation::prepend_ok(names_view(names@), resolve_from(sv, iv, i as int))) by {
            match resolve_from(sv, iv, i as int) {
                Ok(x) => assert(before + (seq![nv] + x) =~= names_view(names@) + x),
                Err(_) => {},
            }
        }
    }
    assert(names_view(names@) + Seq::<Seq<char>>::empty() =~= names_view(names@));
    Ok(names)
}

/// The texts of the values, joined (see `yarns_from`).
fn yarns_of(vals: &Vec<Value>) -> (r: Result<String, AppError>)
    ensures
        r matches Ok(t) ==> yarns_from(value_views(vals@), 0) == Ok::<Seq<char>, AppErrorModel>(t@),
        r matches Err(e) ==> yarns_from(value_views(vals@), 0) == Err::<Seq<char>, AppErrorModel>(e@),
{
    let ghost vv = value_views(vals@);
    let n = vals.len();
    let mut concat = Yarn::empty();
    let mut i: usize = 0;
    assert(crate::evaluation::prepend_ok(concat@, yarns_from(vv, 0)) =~= yarns_from(vv, 0)) by {
        match yarns_from(vv, 0) {
            Ok(x) => assert(concat@ + x =~= x),
            Err(_) => {},
        }
    }
    while i < n
        invariant
            i <= n == vals@.len(),
            vv == value_views(vals@),
            yarns_from(vv, 0) == crate::evaluation::prepend_ok(concat@, yarns_from(vv, i as int)),
        decreases n - i,
    {
        let ghost before = concat@;
        let y = vals[i].as_yarn()?;
        let ghost yv = y@;
        concat.concat(y);
        i = i + 1;
        assert(yarns_from(vv, 0) == crate::evaluation::prepend_ok(concat@, yarns_from(vv, i as int))) by {
            match yarns_from(vv, i as int) {
                Ok(x) => assert(before + (yv + x) =~= concat@ + x),
                Err(_) => {},
            }
        }
    }
    assert(concat@ + Seq::<char>::empty() =~= concat@);
    let chars = concat.to_chars();
    Ok(string_of(chars.as_slice()))
}

/// The index of the `MEBBE` block whose condition is the first to be true (see
/// `pick_mebbe`).
fn pick_mebbe_block(scopes: &Vec<Vec<(Identifier, Value)>>, ms: &Vec<MebbeBlock>) -> (r: Result<Option<usize>, AppError>)
    ensures
        r matches Ok(Some(k)) ==> k < ms@.len() && pick_mebbe(scopes_view(scopes@), mebbe_views(*ms), 0)
            == Ok::<Option<Seq<StatementModel>>, AppErrorModel>(Some(stmt_views(ms@[k as int].statements))),
        r matches Ok(None) ==> pick_mebbe(scopes_view(scopes@), mebbe_views(*ms), 0) == Ok::<Option<Seq<StatementModel>>, AppErrorModel>(None),
        r matches Err(e) ==> pick_mebbe(scopes_view(scopes@), mebbe_views(*ms), 0) == Err::<Option<Seq<StatementModel>>, AppErrorModel>(e@),
{
    let ghost sv = scopes_view(scopes@);
    let ghost mv = mebbe_views(*ms);
    proof {
        lemma_mebbe_views(*ms);
    }
    let n = ms.len();
    let mut i: usize = 0;
    while i < n
        invariant
            i <= n == ms@.len(),
            sv == scopes_view(scopes@),
            mv == mebbe_views(*ms),
            mv.len() == n,
            forall|k: int|
                0 <= k < n ==> #[trigger] mv[k] == (MebbeModel { expr: ms@[k].expr@, statements: stmt_views(ms@[k].statements) }),
            pick_mebbe(sv, mv, 0) == pick_mebbe(sv, mv, i as int),
        decreases n - i,
    {
        assert(mv[i as int].expr == ms@[i as int].expr@);
        let v = eval_expr(scopes, &ms[i].expr)?;
        if v.as_troof().value() {
            return Ok(Some(i));
        }
        i = i + 1;
    }
    Ok(None)
}

impl Interpreter {
    /// A new interpreter: no IT, one empty scope, no function, nothing to run.
    pub fn new() -> (r: Interpreter)
        ensures
            r@ == fresh(),
    {
        let mut variables: Vec<Vec<(Identifier, Value)>> = Vec::new();
        let global: Vec<(Identifier, Value)> = Vec::new();
        assert(scope_view(global@) =~= Seq::<(Seq<char>, ValueModel)>::empty());
        variables.push(global);
        let r = Interpreter { it_variable: None, variables, functions: Vec::new(), frames: Vec::new(), awaiting: None };
        assert(r@.scopes =~= seq![Seq::<(Seq<char>, ValueModel)>::empty()]);
        assert(r@.functions =~= Seq::<(Seq<char>, FunctionModel)>::empty());
        assert(r@.frames =~= Seq::<FrameModel>::empty());
        r
    }

    /// Stops the program with an error.
    fn fail_with(&mut self, e: AppError) -> (r: Action)
        ensures
            (final(self)@, r@) == fail(old(self)@, e@),
    {
        self.frames = Vec::new();
        self.awaiting = None;
        assert(self@.frames =~= Seq::<FrameModel>::empty());
        Action::Error(e)
    }

    /// The variable `name` of the current scope gets the value `v`.
    fn set_in_current(&mut self, name: Identifier, v: Value)
        requires
            old(self).variables@.len() > 0,
        ensures
            final(self)@ == with_scopes(old(self)@, set_current(old(self)@.scopes, name@, v@)),
    {
        let ghost old_scopes = self@.scopes;
        let mut scope = self.variables.pop().unwrap();
        set_variable(&mut scope, name, v);
        self.variables.push(scope);
        assert(self@.scopes =~= set_current(old_scopes, name@, v@));
    }

    /// Calls the function `f` with the values of `args` (see `call_named`).
    fn call_named(&mut self, f: &Identifier, args: &Vec<Expr>, kind: FrameKind) -> (r: Action)
        ensures
            (final(self)@, r@) == call_named(old(self)@, f@, expr_views(*args), kind_view(kind)),
    {
        let ghost m = self@;
        let k = find_function(&self.functions, f);
        if k >= self.functions.len() {
            return self.fail_with(AppError::FunctionDoesNotExist(f.copy()));
        }
        let ghost def = function_view(self.functions@[k as int].1);
        assert(lookup_in(m.functions, f@) == Some(def));
        let params = copy_names(&self.functions[k].1.params);
        let body = copy_stmts(&self.functions[k].1.body);
        let arg_values = match eval_exprs(&self.variables, args) {
            Ok(vs) => vs,
            Err(e) => {
                return self.fail_with(e);
            },
        };
        if params.len() != arg_values.len() {
            return self.fail_with(AppError::NotEnoughArgsForFunction);
        }
        let ghost ps = names_view(params@);
        let ghost vs = value_views(arg_values@);
        let mut new_scope: Vec<(Identifier, Value)> = Vec::new();
        let mut i: usize = 0;
        assert(scope_view(new_scope@) =~= Seq::<(Seq<char>, ValueModel)>::empty());
        while i < params.len()
            invariant
                i <= params@.len() == arg_values@.len(),
                ps == names_view(params@),
                vs == value_views(arg_values@),
                bind_params(ps, vs, 0, seq![]) == bind_params(ps, vs, i as int, scope_view(new_scope@)),
            decreases params@.len() - i,
        {
            insert_variable(&mut new_scope, params[i].copy(), arg_values[i].copy());
            i = i + 1;
        }
        let ghost sc = scope_view(new_scope@);
        self.variables.push(new_scope);
        self.frames.push(Frame { stmts: body, next: 0, kind });
        assert(self@.scopes =~= m.scopes.push(sc));
        assert(self@.frames =~= m.frames.push(FrameModel { stmts: def.body, next: 0, kind: kind_view(kind) }));
        Action::Continue
    }

    /// Runs a block of statements next.
    fn enter_block(&mut self, stmts: Vec<Statement>) -> (r: Action)
        ensures
            (final(self)@, r@) == enter_block(old(self)@, stmt_views(stmts)),
    {
        let ghost m = self@;
        let ghost sv = stmt_views(stmts);
        self.frames.push(Frame { stmts, next: 0, kind: FrameKind::Block });
        assert(self@.frames =~= m.frames.push(FrameModel { stmts: sv, next: 0, kind: FrameKindModel::Block }));
        Action::Continue
    }
}

impl Interpreter {
    fn run_visible(&mut self, exprs: &Vec<Expr>, no_new_line: bool) -> (r: Action)
        ensures
            (final(self)@, r@) == visible_step(old(self)@, expr_views(*exprs), no_new_line),
    {
        let expr_values = match eval_exprs(&self.variables, exprs) {
            Ok(vs) => vs,
            Err(e) => {
                return self.fail_with(e);
            },
        };
        match yarns_of(&expr_values) {
            Ok(text) => Action::Print(text, !no_new_line),
            Err(e) => self.fail_with(e),
        }
    }

    fn run_declare(&mut self, var_name: &IdentifierExpr, expr: &Expr) -> (r: Action)
        ensures
            (final(self)@, r@) == declare_step(old(self)@, var_name@, expr@),
    {
        let ghost m = self@;
        let identifier = match resolve_identifier_expr(&self.variables, var_name) {
            Ok(id) => id,
            Err(e) => {
                return self.fail_with(e);
            },
        };
        let value = match eval_expr(&self.variables, expr) {
            Ok(v) => v,
            Err(e) => {
                return self.fail_with(e);
            },
        };
        let n = self.variables.len();
        if n == 0 {
            return self.fail_with(AppError::CouldNotGetCurrentVariableScope);
        }
        assert(m.scopes.last() == scope_view(self.variables@[n - 1]@));
        if find_variable(&self.variables[n - 1], &identifier) < self.variables[n - 1].len() {
            return self.fail_with(AppError::CannotRedeclareVariable(identifier));
        }
        let ghost entry = (identifier@, value@);
        let mut scope = self.variables.pop().unwrap();
        let ghost before = scope_view(scope@);
        assert(before == m.scopes.last());
        scope.push((identifier, value));
        assert(scope_view(scope@) =~= before.push(entry));
        self.variables.push(scope);
        assert(self@.scopes =~= m.scopes.update(m.scopes.len() - 1, m.scopes.last().push(entry)));
        Action::Continue
    }

    fn run_define(&mut self, name: &IdentifierExpr, params: &Vec<IdentifierExpr>, body: &Vec<Statement>) -> (r: Action)
        ensures
            (final(self)@, r@) == define_step(old(self)@, name@, ident_views(*params), stmt_views(*body)),
    {
        let ghost m = self@;
        let id = match resolve_identifier_expr(&self.variables, name) {
            Ok(id) => id,
            Err(e) => {
                return self.fail_with(e);
            },
        };
        let param_names = match resolve_all(&self.variables, params) {
            Ok(ns) => ns,
            Err(e) => {
                return self.fail_with(e);
            },
        };
        let f = Function { params: param_names, body: copy_stmts(body) };
        let ghost entry = (id@, function_view(f));
        let k = find_function(&self.functions, &id);
        if k < self.functions.len() {
            self.functions[k] = (id, f);
            assert(self@.functions =~= m.functions.update(k as int, entry));
        } else {
            self.functions.push((id, f));
            assert(self@.functions =~= m.functions.push(entry));
        }
        Action::Continue
    }

    fn run_gimmeh(&mut self, input_var: &IdentifierExpr) -> (r: Action)
        ensures
            (final(self)@, r@) == gimmeh_step(old(self)@, input_var@),
    {
        let ghost m = self@;
        let identifier = match resolve_identifier_expr(&self.variables, input_var) {
            Ok(id) => id,
            Err(e) => {
                return self.fail_with(e);
            },
        };
        let n = self.variables.len();
        if n == 0 {
            return self.fail_with(AppError::CouldNotGetCurrentVariableScope);
        }
        assert(m.scopes.last() == scope_view(self.variables@[n - 1]@));
        if find_variable(&self.variables[n - 1], &identifier) >= self.variables[n - 1].len() {
            return self.fail_with(AppError::VariableDoesNotExist(identifier));
        }
        self.awaiting = Some(identifier);
        Action::ReadLine
    }

    fn run_assign(&mut self, var: &IdentifierExpr, expr: &Expr) -> (r: Action)
        ensures
            (final(self)@, r@) == assign_step(old(self)@, var@, expr@),
    {
        let ghost m = self@;
        let identifier = match resolve_identifier_expr(&self.variables, var) {
            Ok(id) => id,
            Err(e) => {
                return self.fail_with(e);
            },
        };
        let value = match eval_expr(&self.variables, expr) {
            Ok(v) => v,
            Err(e) => {
                return self.fail_with(e);
            },
        };
        let n = self.variables.len();
        if n == 0 {
            return self.fail_with(AppError::CouldNotGetCurrentVariableScope);
        }
        assert(m.scopes.last() == scope_view(self.variables@[n - 1]@));
        if find_variable(&self.variables[n - 1], &identifier) >= self.variables[n - 1].len() {
            return self.fail_with(AppError::VariableDoesNotExist(identifier));
        }
        self.set_in_current(identifier, value);
        Action::Continue
    }

    fn run_recast(&mut self, id: &IdentifierExpr, cast_type: CastTypes) -> (r: Action)
        ensures
            (final(self)@, r@) == recast_step(old(self)@, id@, cast_type),
    {
        let ghost m = self@;
        let identifier = match resolve_identifier_expr(&self.variables, id) {
            Ok(id) => id,
            Err(e) => {
                return self.fail_with(e);
            },
        };
        let n = self.variables.len();
        if n == 0 {
            return self.fail_with(AppError::CouldNotGetCurrentVariableScope);
        }
        assert(m.scopes.last() == scope_view(self.variables@[n - 1]@));
        let value = match get_variable(&self.variables[n - 1], &identifier) {
            Some(v) => v,
            None => {
                return self.fail_with(AppError::VariableDoesNotExist(identifier));
            },
        };
        let casted = match cast_variable(&value, cast_type) {
            Ok(c) => c,
            Err(e) => {
                return self.fail_with(e);
            },
        };
        self.set_in_current(identifier, casted);
        Action::Continue
    }

    fn run_expr(&mut self, expr: &Expr) -> (r: Action)
        ensures
            (final(self)@, r@) == expr_step(old(self)@, expr@),
    {
        let val = match eval_expr(&self.variables, expr) {
            Ok(v) => v,
            Err(e) => {
                return self.fail_with(e);
            },
        };
        self.it_variable = Some(val);
        Action::Continue
    }

    fn run_o_rly(&mut self, o_rly_block: &ORlyBlock) -> (r: Action)
        ensures
            (final(self)@, r@) == o_rly_step(
                old(self)@,
                stmt_views(o_rly_block.ya_rly_block),
                mebbe_views(o_rly_block.mebbe_blocks),
                stmt_views(o_rly_block.no_wai_block),
            ),
    {
        let it_val = match &self.it_variable {
            Some(v) => v.copy(),
            None => {
                return self.fail_with(AppError::NoValueInItVariable);
            },
        };
        if it_val.as_troof().value() {
            return self.enter_block(copy_stmts(&o_rly_block.ya_rly_block));
        }
        match pick_mebbe_block(&self.variables, &o_rly_block.mebbe_blocks) {
            Ok(Some(k)) => self.enter_block(copy_stmts(&o_rly_block.mebbe_blocks[k].statements)),
            Ok(None) => self.enter_block(copy_stmts(&o_rly_block.no_wai_block)),
            Err(e) => self.fail_with(e),
        }
    }

    /// Runs one statement that is not a return from a function body (see
    /// `run_statement`).
    fn run_statement(&mut self, stmt: &Statement) -> (r: Action)
        ensures
            (final(self)@, r@) == run_statement(old(self)@, stmt@),
    {
        match stmt {
            Statement::Hai(_) => Action::Continue,
            Statement::CanHasLib(_) => Action::Continue,
            Statement::KThxBye => Action::Continue,
            Statement::Visible(exprs, no_new_line) => self.run_visible(exprs, *no_new_line),
            Statement::IHasA(var_name, expr) => self.run_declare(var_name, expr),
            Statement::HowIzI(name, params, body) => self.run_define(name, params, body),
            Statement::IIz(func_name, param_values) => {
                let f = match resolve_identifier_expr(&self.variables, func_name) {
                    Ok(id) => id,
                    Err(e) => {
                        return self.fail_with(e);
                    },
                };
                self.call_named(&f, param_values, FrameKind::Call)
            },
            Statement::VarRIIzFunc(var_name, func_name, param_values) => {
                let var_id = match resolve_identifier_expr(&self.variables, var_name) {
                    Ok(id) => id,
                    Err(e) => {
                        return self.fail_with(e);
                    },
                };
                self.call_named(func_name, param_values, FrameKind::CallInto(var_id))
            },
            Statement::FoundYr(_) => self.fail_with(AppError::CannotReturnFromFunctionOutsideFunction),
            Statement::Gtfo => self.fail_with(AppError::CannotReturnFromFunctionOutsideFunction),
            Statement::Gimmeh(input_var) => self.run_gimmeh(input_var),
            Statement::Rassignment(var, expr) => self.run_assign(var, expr),
            Statement::Recast(id, cast_type) => self.run_recast(id, *cast_type),
            Statement::Expr(expr) => self.run_expr(expr),
            Statement::ORly(o_rly_block) => self.run_o_rly(o_rly_block),
        }
    }
}

impl Interpreter {
    /// Leaves a function: its frame and its scope go.
    fn leave_call(&mut self)
        requires
            old(self).frames@.len() > 0,
        ensures
            final(self)@ == leave_call(old(self)@),
    {
        let ghost m = self@;
        let _ = self.frames.pop();
        let _ = self.variables.pop();
        assert(self@.frames =~= m.frames.drop_last());
        assert(self@.scopes =~= pop_scope(m.scopes));
    }

    /// `GTFO` or `FOUND YR` directly in a function body (see `return_from`).
    fn return_from(&mut self, stmt: &Statement, kind: &FrameKind) -> (r: Action)
        requires
            old(self).frames@.len() > 0,
        ensures
            (final(self)@, r@) == return_from(old(self)@, stmt@, kind_view(*kind)),
    {
        let ghost m = self@;
        match kind {
            FrameKind::CallInto(var_id) => match stmt {
                Statement::FoundYr(expr) => {
                    let val = match eval_expr(&self.variables, expr) {
                        Ok(v) => v,
                        Err(e) => {
                            return self.fail_with(e);
                        },
                    };
                    let n = self.variables.len();
                    if n < 2 {
                        return self.fail_with(AppError::CouldNotGetCurrentVariableScope);
                    }
                    assert(m.scopes[n - 2] == scope_view(self.variables@[n - 2]@));
                    if find_variable(&self.variables[n - 2], var_id) >= self.variables[n - 2].len() {
                        return self.fail_with(AppError::VariableDoesNotExist(var_id.copy()));
                    }
                    let ghost k = n - 2;
                    let ghost updated = with_scopes(m, m.scopes.update(k, set_in(m.scopes[k], var_id@, val@)));
                    self.leave_call();
                    assert(self@.scopes.last() == m.scopes[k]);
                    self.set_in_current(var_id.copy(), val);
                    assert(self@ == leave_call(updated)) by {
                        assert(self@.scopes =~= pop_scope(updated.scopes));
                        assert(self@.frames =~= updated.frames.drop_last());
                    }
                    Action::Continue
                },
                _ => {
                    self.leave_call();
                    let n = self.variables.len();
                    if n == 0 {
                        return self.fail_with(AppError::CouldNotGetCurrentVariableScope);
                    }
                    assert(self@.scopes.last() == scope_view(self.variables@[n - 1]@));
                    if find_variable(&self.variables[n - 1], var_id) >= self.variables[n - 1].len() {
                        return self.fail_with(AppError::VariableDoesNotExist(var_id.copy()));
                    }
                    self.set_in_current(var_id.copy(), Value::Noob);
                    Action::Continue
                },
            },
            _ => {
                self.leave_call();
                Action::Continue
            },
        }
    }

    /// Takes one step of the program (see `step_spec`): runs the next statement, or
    /// leaves a finished block or function, and says what the caller must do.
    pub fn step(&mut self) -> (r: Action)
        ensures
            (final(self)@, r@) == step_spec(old(self)@),
    {
        let ghost m = self@;
        if self.awaiting.is_some() {
            return Action::ReadLine;
        }
        let nf = self.frames.len();
        if nf == 0 {
            return Action::Done;
        }
        let mut frame = self.frames.pop().unwrap();
        assert(frame_view(frame) == m.frames.last());
        if frame.next >= frame.stmts.len() {
            match frame.kind {
                FrameKind::Block => {},
                _ => {
                    let _ = self.variables.pop();
                },
            }
            assert(self@.frames =~= m.frames.drop_last());
            assert(self@.scopes =~= (if m.frames.last().kind is Block {
                m.scopes
            } else {
                pop_scope(m.scopes)
            }));
            return Action::Continue;
        }
        let i = frame.next;
        proof {
            lemma_stmt_views(frame.stmts);
        }
        let stmt = frame.stmts[i].copy();
        let kind = frame.kind.copy();
        frame.next = i + 1;
        let ghost f = m.frames.last();
        self.frames.push(frame);
        assert(self@.frames =~= m.frames.update(m.frames.len() - 1, FrameModel { stmts: f.stmts, next: f.next + 1, kind: f.kind }));
        let is_return = match &stmt {
            Statement::Gtfo => true,
            Statement::FoundYr(_) => true,
            _ => false,
        };
        let in_block = match &kind {
            FrameKind::Block => true,
            _ => false,
        };
        if !in_block && is_return {
            self.return_from(&stmt, &kind)
        } else {
            self.run_statement(&stmt)
        }
    }

    /// Hands over a line of input for the `GIMMEH` that waits (see `input_spec`):
    /// the variable gets the line, without its trailing line breaks, as a YARN.
    pub fn provide_input(&mut self, line: String)
        ensures
            final(self)@ == input_spec(old(self)@, line@),
    {
        let ghost m = self@;
        let name = match &self.awaiting {
            Some(id) => id.copy(),
            None => {
                return;
            },
        };
        self.awaiting = None;
        let chars = chars_of(line.as_str());
        let mut n: usize = chars.len();
        assert(chars@.take(n as int) =~= chars@);
        while n > 0 && (chars[n - 1] == '\n' || chars[n - 1] == '\r')
            invariant
                n <= chars@.len(),
                without_line_break(chars@.take(n as int)) == without_line_break(chars@),
            decreases n,
        {
            assert(chars@.take(n as int).drop_last() =~= chars@.take(n - 1));
            n = n - 1;
        }
        let mut kept: Vec<char> = Vec::new();
        let mut j: usize = 0;
        while j < n
            invariant
                j <= n <= chars@.len(),
                kept@ == chars@.take(j as int),
            decreases n - j,
        {
            kept.push(chars[j]);
            j = j + 1;
            assert(kept@ =~= chars@.take(j as int));
        }
        assert(without_line_break(chars@.take(n as int)) == chars@.take(n as int));
        if self.variables.len() > 0 {
            self.set_in_current(name, Value::Yarn(Yarn::from_chars(kept.as_slice())));
        }
    }
}

/// The statements of all lines (see `parse_program`).
fn parse_lines(lines: &Vec<Vec<char>>) -> (r: Result<Vec<Statement>, AppError>)
    ensures
        r matches Ok(v) ==> parse_program(views(lines@), 0, seq![]) == Ok::<Seq<StatementModel>, AppErrorModel>(stmt_views(v)),
        r matches Err(e) ==> parse_program(views(lines@), 0, seq![]) == Err::<Seq<StatementModel>, AppErrorModel>(e@),
{
    let ghost ls = views(lines@);
    let n = lines.len();
    let mut statements: Vec<Statement> = Vec::new();
    assert(stmt_views(statements) =~= Seq::<StatementModel>::empty());
    let mut pos: usize = 0;
    while pos < n
        invariant
            pos <= n == lines@.len(),
            ls == views(lines@),
            parse_program(ls, 0, seq![]) == parse_program(ls, pos as int, stmt_views(statements)),
        decreases n - pos,
    {
        assert(ls[pos as int] == lines@[pos as int]@);
        let tokens = crate::lexer::tokenize_chars(lines[pos].as_slice())?;
        let (stmt, next) = parse_line(tokens.as_slice(), lines.as_slice(), pos + 1)?;
        match stmt {
            Some(st) => {
                proof {
                    lemma_stmt_views(statements);
                }
                let ghost before = stmt_views(statements);
                let ghost sv = st@;
                statements.push(st);
                proof {
                    lemma_stmt_views(statements);
                    assert(stmt_views(statements) =~= before.push(sv));
                }
            },
            None => {},
        }
        pos = next;
    }
    Ok(statements)
}

/// The first statement out of place (see `check_program`).
fn check_statements(stmts: &Vec<Statement>) -> (r: Option<AppError>)
    ensures
        r matches Some(e) ==> check_program(stmt_views(*stmts)) == Some(e@),
        r is None ==> check_program(stmt_views(*stmts)) is None,
{
    let ghost sv = stmt_views(*stmts);
    proof {
        lemma_stmt_views(*stmts);
    }
    let n = stmts.len();
    if n > 0 && !matches!(stmts[0], Statement::Hai(_)) {
        return Some(AppError::HaiMustBeFirstLine);
    }
    if n > 0 && !matches!(stmts[n - 1], Statement::KThxBye) {
        return Some(AppError::KThxByeMustBeLastLine);
    }
    assert(check_program(sv) == misplaced_from(sv, 0));
    let mut i: usize = 0;
    while i < n
        invariant
            i <= n == stmts@.len(),
            sv == stmt_views(*stmts),
            sv.len() == n,
            forall|k: int| 0 <= k < n ==> #[trigger] sv[k] == stmts@[k]@,
            check_program(sv) == misplaced_from(sv, 0),
            misplaced_from(sv, 0) == misplaced_from(sv, i as int),
        decreases n - i,
    {
        assert(sv[i as int] == stmts@[i as int]@);
        if matches!(stmts[i], Statement::Hai(_)) && i != 0 {
            return Some(AppError::HaiMustBeFirstLine);
        }
        if matches!(stmts[i], Statement::KThxBye) && i != n - 1 {
            return Some(AppError::KThxByeMustBeLastLine);
        }
        i = i + 1;
    }
    None
}

impl Interpreter {
    /// Loads a program (see `program_spec`): its source is normalised, split into
    /// lines, parsed and checked; on success the program is the next thing to run
    /// (`step` runs it), and on an error nothing changes.
    pub fn execute_source(&mut self, source: String) -> (r: Result<(), AppError>)
        ensures
            r is Ok <==> program_spec(source@) is Ok,
            r is Ok ==> final(self)@ == with_frames(
                old(self)@,
                old(self)@.frames.push(FrameModel { stmts: program_spec(source@)->Ok_0, next: 0, kind: FrameKindModel::Block }),
            ),
            r matches Err(e) ==> program_spec(source@) == Err::<Seq<StatementModel>, AppErrorModel>(e@) && final(self)@ == old(self)@,
    {
        let ghost m = self@;
        let normalised_source = normalise_source(source)?;
        let chars = chars_of(normalised_source.as_str());
        let lines = split_lines(chars.as_slice());
        let statements = parse_lines(&lines)?;
        match check_statements(&statements) {
            Some(e) => {
                return Err(e);
            },
            None => {},
        }
        let ghost sv = stmt_views(statements);
        self.frames.push(Frame { stmts: statements, next: 0, kind: FrameKind::Block });
        assert(self@.frames =~= m.frames.push(FrameModel { stmts: sv, next: 0, kind: FrameKindModel::Block }));
        Ok(())
    }
}

// ---------------------------------------------------------------------------
// Laws of the machine.
// ---------------------------------------------------------------------------

/// A variable named directly.
pub open spec fn var(name: Seq<char>) -> ExprModel {
    ExprModel::Variable(IdentModel::Identifier(name))
}

/// Reading a variable right after `I HAS A` declared it gives the value it was
/// declared with.
pub proof fn law_read_after_declare(m: InterpreterModel, name: Seq<char>, e: ExprModel)
    requires
        declare_step(m, IdentModel::Identifier(name), e).1 is Continue,
    ensures
        eval(declare_step(m, IdentModel::Identifier(name), e).0.scopes, var(name)) == eval(m.scopes, e),
{
    let v = eval(m.scopes, e)->Ok_0;
    let s = m.scopes;
    let s2 = declare_step(m, IdentModel::Identifier(name), e).0.scopes;
    assert(s2.last() == s.last().push((name, v)));
    lemma_lookup_after_push(s.last(), name, v);
    assert(lookup_variable(s2, name) == Some(v));
    assert(resolve(s2, IdentModel::Identifier(name)) == Ok::<Seq<char>, AppErrorModel>(name));
}

/// Declaring a variable a second time in the same scope is refused (once the new
/// initial value has been evaluated without error).
pub proof fn law_redeclare_refused(m: InterpreterModel, name: Seq<char>, e: ExprModel, e2: ExprModel)
    requires
        declare_step(m, IdentModel::Identifier(name), e).1 is Continue,
        eval(declare_step(m, IdentModel::Identifier(name), e).0.scopes, e2) is Ok,
    ensures
        ({
            let m1 = declare_step(m, IdentModel::Identifier(name), e).0;
            declare_step(m1, IdentModel::Identifier(name), e2) == fail(m1, AppErrorModel::CannotRedeclareVariable(name))
        }),
{
    let v = eval(m.scopes, e)->Ok_0;
    let s = m.scopes;
    let s2 = declare_step(m, IdentModel::Identifier(name), e).0.scopes;
    assert(s2.last() == s.last().push((name, v)));
    lemma_lookup_after_push(s.last(), name, v);
}

/// Reading a variable right after `<name> R <expr>` gives the value assigned.
pub proof fn law_read_after_assign(m: InterpreterModel, name: Seq<char>, e: ExprModel)
    requires
        assign_step(m, IdentModel::Identifier(name), e).1 is Continue,
    ensures
        eval(assign_step(m, IdentModel::Identifier(name), e).0.scopes, var(name)) == eval(m.scopes, e),
{
    let v = eval(m.scopes, e)->Ok_0;
    let s = m.scopes;
    let s2 = assign_step(m, IdentModel::Identifier(name), e).0.scopes;
    assert(s2.last() == set_in(s.last(), name, v));
    lemma_lookup_after_set(s.last(), name, v);
    assert(lookup_variable(s2, name) == Some(v));
    assert(resolve(s2, IdentModel::Identifier(name)) == Ok::<Seq<char>, AppErrorModel>(name));
}

/// After `GIMMEH <name>` and a line of input, the variable holds that line (without
/// its line breaks) as a YARN, and no input is awaited any more.
pub proof fn law_read_after_gimmeh(m: InterpreterModel, name: Seq<char>, line: Seq<char>)
    requires
        gimmeh_step(m, IdentModel::Identifier(name)).1 is ReadLine,
    ensures
        ({
            let m2 = input_spec(gimmeh_step(m, IdentModel::Identifier(name)).0, line);
            &&& m2.awaiting is None
            &&& eval(m2.scopes, var(name)) == Ok::<ValueModel, AppErrorModel>(ValueModel::Yarn(without_line_break(line)))
        }),
{
    let s = m.scopes;
    let m2 = input_spec(gimmeh_step(m, IdentModel::Identifier(name)).0, line);
    let y = ValueModel::Yarn(without_line_break(line));
    assert(m2.scopes.last() == set_in(s.last(), name, y));
    lemma_lookup_after_set(s.last(), name, y);
    assert(lookup_variable(m2.scopes, name) == Some(y));
    assert(resolve(m2.scopes, IdentModel::Identifier(name)) == Ok::<Seq<char>, AppErrorModel>(name));
}

/// After `HOW IZ I <name>` the function table gives that definition for the name.
pub proof fn law_defined_function_found(m: InterpreterModel, name: Seq<char>, ps: Seq<IdentModel>, body: Seq<StatementModel>)
    requires
        define_step(m, IdentModel::Identifier(name), ps, body).1 is Continue,
    ensures
        lookup_in(define_step(m, IdentModel::Identifier(name), ps, body).0.functions, name) == Some(
            FunctionModel { params: resolve_from(m.scopes, ps, 0)->Ok_0, body },
        ),
{
    lemma_lookup_after_insert(m.functions, name, FunctionModel { params: resolve_from(m.scopes, ps, 0)->Ok_0, body });
}

/// After an error the program is over: the next step does nothing and says so.
pub proof fn law_error_stops_program(m: InterpreterModel)
    requires
        step_spec(m).1 is Error,
    ensures
        step_spec(step_spec(m).0) == (step_spec(m).0, ActionModel::Done),
{
}

/// While a line of input is awaited, a step changes nothing and asks for it again.
pub proof fn law_awaiting_input_blocks(m: InterpreterModel)
    requires
        m.awaiting is Some,
    ensures
        step_spec(m) == (m, ActionModel::ReadLine),
{
}

/// How many frames run a function (and so own a scope).
pub open spec fn call_count(frames: Seq<FrameModel>) -> nat
    decreases frames.len(),
{
    if frames.len() == 0 {
        0
    } else {
        call_count(frames.drop_last()) + if frames.last().kind is Block {
            0nat
        } else {
            1nat
        }
    }
}

/// There is a scope for the program and one for each function that runs: so the
/// current scope, and the caller's scope of a running function, always exist.
pub open spec fn scopes_cover_calls(m: InterpreterModel) -> bool {
    m.scopes.len() >= 1 + call_count(m.frames)
}

proof fn lemma_call_count_update_last(frames: Seq<FrameModel>, f: FrameModel)
    requires
        frames.len() > 0,
        (f.kind is Block) == (frames.last().kind is Block),
    ensures
        call_count(frames.update(frames.len() - 1, f)) == call_count(frames),
{
    let u = frames.update(frames.len() - 1, f);
    assert(u.drop_last() =~= frames.drop_last());
}

proof fn lemma_call_count_push(frames: Seq<FrameModel>, f: FrameModel)
    ensures
        call_count(frames.push(f)) == call_count(frames) + if f.kind is Block {
            0nat
        } else {
            1nat
        },
{
    assert(frames.push(f).drop_last() =~= frames);
}

/// A new interpreter has its scope.
pub proof fn law_fresh_covers_calls()
    ensures
        scopes_cover_calls(fresh()),
{
}

/// Loading a program keeps the scopes: it only adds a block to run.
pub proof fn law_load_keeps_scopes(m: InterpreterModel, stmts: Seq<StatementModel>)
    requires
        scopes_cover_calls(m),
    ensures
        scopes_cover_calls(with_frames(m, m.frames.push(FrameModel { stmts, next: 0, kind: FrameKindModel::Block }))),
{
    lemma_call_count_push(m.frames, FrameModel { stmts, next: 0, kind: FrameKindModel::Block });
}

/// Handing over a line of input keeps the scopes.
pub proof fn law_input_keeps_scopes(m: InterpreterModel, line: Seq<char>)
    requires
        scopes_cover_calls(m),
    ensures
        scopes_cover_calls(input_spec(m, line)),
{
}

/// Every step keeps a scope for the program and for each running function: a call
/// adds a scope with its frame, and leaving a function drops both.
pub proof fn law_step_keeps_scopes(m: InterpreterModel)
    requires
        scopes_cover_calls(m),
    ensures
        scopes_cover_calls(step_spec(m).0),
{
    if m.awaiting is None && m.frames.len() > 0 {
        let f = m.frames.last();
        if 0 <= f.next < f.stmts.len() {
            let s = f.stmts[f.next];
            let f1 = FrameModel { stmts: f.stmts, next: f.next + 1, kind: f.kind };
            let m1 = with_frames(m, m.frames.update(m.frames.len() - 1, f1));
            lemma_call_count_update_last(m.frames, f1);
            assert(m1.frames.drop_last() =~= m.frames.drop_last());
            assert(scopes_cover_calls(m1));
            if !(f.kind is Block) && (s is Gtfo || s is FoundYr) {
                assert(scopes_cover_calls(leave_call(m1)));
            } else {
                let r = run_statement(m1, s);
                match s {
                    StatementModel::IIz(id, args) => {
                        if resolve(m1.scopes, id) is Ok {
                            let fname = resolve(m1.scopes, id)->Ok_0;
                            if lookup_in(m1.functions, fname) is Some {
                                let def = lookup_in(m1.functions, fname)->Some_0;
                                lemma_call_count_push(m1.frames, FrameModel { stmts: def.body, next: 0, kind: FrameKindModel::Call });
                            }
                        }
                    },
                    StatementModel::VarRIIzFunc(v, fname, args) => {
                        if resolve(m1.scopes, v) is Ok {
                            let name = resolve(m1.scopes, v)->Ok_0;
                            if lookup_in(m1.functions, fname) is Some {
                                let def = lookup_in(m1.functions, fname)->Some_0;
                                lemma_call_count_push(
                                    m1.frames,
                                    FrameModel { stmts: def.body, next: 0, kind: FrameKindModel::CallInto(name) },
                                );
                            }
                        }
                    },
                    StatementModel::ORly(ya, mebbes, no_wai) => {
                        lemma_call_count_push(m1.frames, FrameModel { stmts: ya, next: 0, kind: FrameKindModel::Block });
                        match pick_mebbe(m1.scopes, mebbes, 0) {
                            Ok(Some(stmts)) => {
                                lemma_call_count_push(m1.frames, FrameModel { stmts, next: 0, kind: FrameKindModel::Block });
                            },
                            _ => {},
                        }
                        lemma_call_count_push(m1.frames, FrameModel { stmts: no_wai, next: 0, kind: FrameKindModel::Block });
                    },
                    _ => {},
                }
            }
        }
    }
}


proof fn lemma_resolve_from_no_scope_error(scopes: Seq<Seq<(Seq<char>, ValueModel)>>, ids: Seq<IdentModel>, k: int)
    requires
        scopes.len() > 0,
    ensures
        !is_scope_error(resolve_from(scopes, ids, k)),
    decreases ids.len() - k,
{
    if 0 <= k < ids.len() {
        lemma_resolve_no_scope_error(scopes, ids[k]);
        lemma_resolve_from_no_scope_error(scopes, ids, k + 1);
    }
}

proof fn lemma_yarns_no_scope_error(vs: Seq<ValueModel>, k: int)
    ensures
        !is_scope_error(yarns_from(vs, k)),
    decreases vs.len() - k,
{
    if 0 <= k < vs.len() {
        lemma_yarns_no_scope_error(vs, k + 1);
    }
}

proof fn lemma_pick_mebbe_no_scope_error(scopes: Seq<Seq<(Seq<char>, ValueModel)>>, ms: Seq<MebbeModel>, k: int)
    requires
        scopes.len() > 0,
    ensures
        !is_scope_error(pick_mebbe(scopes, ms, k)),
    decreases ms.len() - k,
{
    if 0 <= k < ms.len() {
        law_eval_has_a_scope(scopes, ms[k].expr);
        lemma_pick_mebbe_no_scope_error(scopes, ms, k + 1);
    }
}

proof fn lemma_run_statement_has_a_scope(m: InterpreterModel, s: StatementModel)
    requires
        m.scopes.len() > 0,
    ensures
        run_statement(m, s).1 != ActionModel::Error(AppErrorModel::CouldNotGetCurrentVariableScope),
{
    let scopes = m.scopes;
    match s {
        StatementModel::Visible(es, _) => {
            lemma_eval_from_no_scope_error(scopes, es, 0);
            if eval_from(scopes, es, 0) is Ok {
                lemma_yarns_no_scope_error(eval_from(scopes, es, 0)->Ok_0, 0);
            }
        },
        StatementModel::IHasA(id, e) => {
            lemma_resolve_no_scope_error(scopes, id);
            law_eval_has_a_scope(scopes, e);
        },
        StatementModel::HowIzI(id, ps, _) => {
            lemma_resolve_no_scope_error(scopes, id);
            lemma_resolve_from_no_scope_error(scopes, ps, 0);
        },
        StatementModel::IIz(id, args) => {
            lemma_resolve_no_scope_error(scopes, id);
            lemma_eval_from_no_scope_error(scopes, args, 0);
        },
        StatementModel::VarRIIzFunc(var, _, args) => {
            lemma_resolve_no_scope_error(scopes, var);
            lemma_eval_from_no_scope_error(scopes, args, 0);
        },
        StatementModel::Gimmeh(id) => lemma_resolve_no_scope_error(scopes, id),
        StatementModel::Rassignment(id, e) => {
            lemma_resolve_no_scope_error(scopes, id);
            law_eval_has_a_scope(scopes, e);
        },
        StatementModel::Recast(id, _) => lemma_resolve_no_scope_error(scopes, id),
        StatementModel::Expr(e) => law_eval_has_a_scope(scopes, e),
        StatementModel::ORly(_, mebbes, _) => lemma_pick_mebbe_no_scope_error(scopes, mebbes, 0),
        _ => {},
    }
}

/// In a state that has a scope for the program and one for each running function
/// (as every state reached from a new interpreter has), no step fails for want of a
/// scope.
pub proof fn law_step_has_a_scope(m: InterpreterModel)
    requires
        scopes_cover_calls(m),
    ensures
        step_spec(m).1 != ActionModel::Error(AppErrorModel::CouldNotGetCurrentVariableScope),
{
    if m.awaiting is None && m.frames.len() > 0 {
        let f = m.frames.last();
        if 0 <= f.next < f.stmts.len() {
            let s = f.stmts[f.next];
            let f1 = FrameModel { stmts: f.stmts, next: f.next + 1, kind: f.kind };
            let m1 = with_frames(m, m.frames.update(m.frames.len() - 1, f1));
            if !(f.kind is Block) && (s is Gtfo || s is FoundYr) {
                assert(call_count(m.frames) >= 1);
                match s {
                    StatementModel::FoundYr(e) => law_eval_has_a_scope(m1.scopes, e),
                    _ => {},
                }
            } else {
                lemma_run_statement_has_a_scope(m1, s);
            }
        }
    }
}


/// The frame with its next statement counted as run.
pub open spec fn advanced(f: FrameModel) -> FrameModel {
    FrameModel { stmts: f.stmts, next: f.next + 1, kind: f.kind }
}

/// `<var> R I IZ <f> ...` with a function whose body starts with `FOUND YR <expr>`:
/// when the call and the return both go through, the caller is back where it was,
/// one statement further, with its scopes as before but for `<var>`, which holds the
/// value of the expression in the function's scope.
pub proof fn law_call_returns_to_caller(m: InterpreterModel, var: Seq<char>, f: Seq<char>, args: Seq<ExprModel>)
    requires
        m.awaiting is None,
        m.scopes.len() > 0,
        m.frames.len() > 0,
        0 <= m.frames.last().next < m.frames.last().stmts.len(),
        m.frames.last().stmts[m.frames.last().next] == StatementModel::VarRIIzFunc(IdentModel::Identifier(var), f, args),
        lookup_in(m.functions, f) matches Some(def) && def.body.len() > 0 && def.body[0] is FoundYr,
        step_spec(m).1 is Continue,
        step_spec(step_spec(m).0).1 is Continue,
    ensures
        ({
            let m2 = step_spec(m).0;
            let m3 = step_spec(m2).0;
            let e = lookup_in(m.functions, f)->Some_0.body[0]->FoundYr_0;
            &&& m3.frames == m.frames.update(m.frames.len() - 1, advanced(m.frames.last()))
            &&& m3.scopes == set_current(m.scopes, var, eval(m2.scopes, e)->Ok_0)
            &&& m3.it == m.it
            &&& m3.functions == m.functions
        }),
{
    let fr = m.frames.last();
    let m1 = with_frames(m, m.frames.update(m.frames.len() - 1, advanced(fr)));
    let def = lookup_in(m.functions, f)->Some_0;
    let vs = eval_from(m.scopes, args, 0)->Ok_0;
    let m2 = step_spec(m).0;
    assert(m2 == call_function(m1, def, vs, FrameKindModel::CallInto(var)).0);
    let top = FrameModel { stmts: def.body, next: 0, kind: FrameKindModel::CallInto(var) };
    assert(m2.frames == m1.frames.push(top));
    assert(m2.frames.last() == top);
    let m2b = with_frames(m2, m2.frames.update(m2.frames.len() - 1, advanced(top)));
    assert(m2b.frames.drop_last() =~= m1.frames);
    let e = def.body[0]->FoundYr_0;
    let v = eval(m2.scopes, e)->Ok_0;
    let k = m2.scopes.len() - 2;
    assert(m2.scopes[k] == m.scopes.last());
    assert(step_spec(m2).0.scopes =~= pop_scope(m2.scopes.update(k, set_in(m2.scopes[k], var, v))));
    assert(pop_scope(m2.scopes.update(k, set_in(m2.scopes[k], var, v))) =~= set_current(m.scopes, var, v));
}


// ---------------------------------------------------------------------------
// A whole call.
// ---------------------------------------------------------------------------

/// What a statement that goes through does to the frames and scopes: it touches at
/// most the innermost scope, or enters a block, or calls a function (a frame and a
/// scope more); only `GIMMEH` waits for input, and touches nothing else.
proof fn lemma_run_statement_shape(m: InterpreterModel, s: StatementModel)
    requires
        m.scopes.len() > 0,
        !(run_statement(m, s).1 is Error),
    ensures
        ({
            let (r, a) = run_statement(m, s);
            &&& r.frames.len() == m.frames.len() || r.frames.len() == m.frames.len() + 1
            &&& r.frames.take(m.frames.len() as int) == m.frames
            &&& r.frames.len() == m.frames.len() ==> r.scopes.len() == m.scopes.len() && r.scopes.drop_last() == m.scopes.drop_last()
            &&& r.frames.len() == m.frames.len() + 1 && r.frames.last().kind is Block ==> r.scopes == m.scopes
            &&& r.frames.len() == m.frames.len() + 1 && !(r.frames.last().kind is Block) ==> r.scopes.len() == m.scopes.len() + 1
                && r.scopes.take(m.scopes.len() as int) == m.scopes
            &&& a is ReadLine ==> r.awaiting is Some && r.frames == m.frames && r.scopes == m.scopes
            &&& !(a is ReadLine) ==> r.awaiting == m.awaiting
        }),
{
    let (r, a) = run_statement(m, s);
    assert(m.frames.take(m.frames.len() as int) =~= m.frames);
    assert(m.scopes.take(m.scopes.len() as int) =~= m.scopes);
    if r.frames.len() == m.frames.len() + 1 {
        assert(r.frames.take(m.frames.len() as int) =~= m.frames);
        if !(r.frames.last().kind is Block) {
            assert(r.scopes.take(m.scopes.len() as int) =~= m.scopes);
        }
    } else if r.scopes.len() == m.scopes.len() {
        assert(r.scopes.drop_last() =~= m.scopes.drop_last());
    }
}

/// One turn of a session: a step, and, where the step asks for a line of input,
/// `line` handed over.
pub open spec fn turn(m: InterpreterModel, line: Seq<char>) -> (InterpreterModel, ActionModel) {
    let (m1, a) = step_spec(m);
    if a is ReadLine {
        (input_spec(m1, line), a)
    } else {
        (m1, a)
    }
}

/// The state after one turn for each of `lines`, in order.
pub open spec fn after_turns(m: InterpreterModel, lines: Seq<Seq<char>>) -> InterpreterModel
    decreases lines.len(),
{
    if lines.len() == 0 {
        m
    } else {
        turn(after_turns(m, lines.drop_last()), lines.last()).0
    }
}

/// No turn of `lines` ends the program, by an error or at its end.
pub open spec fn turns_go_on(m: InterpreterModel, lines: Seq<Seq<char>>) -> bool {
    forall|j: int|
        #![trigger after_turns(m, lines.take(j))]
        0 <= j < lines.len() ==> {
            let a = turn(after_turns(m, lines.take(j)), lines[j]).1;
            !(a is Error) && !(a is Done)
        }
}

/// The caller's frames once its current statement has run.
pub open spec fn caller_frames(m: InterpreterModel) -> Seq<FrameModel> {
    m.frames.update(m.frames.len() - 1, advanced(m.frames.last()))
}

/// The caller's scopes when the call into `name` whose frame is on top in `p` ends:
/// as they were when the body ran out; else `name` holds the value of the `FOUND YR`
/// expression in the function's scope, or NOOB after `GTFO`.
pub open spec fn scopes_after_call(caller: Seq<Seq<(Seq<char>, ValueModel)>>, name: Seq<char>, p: InterpreterModel) -> Seq<Seq<(Seq<char>, ValueModel)>> {
    let top = p.frames.last();
    if !(0 <= top.next < top.stmts.len()) {
        caller
    } else {
        match top.stmts[top.next] {
            StatementModel::FoundYr(e) => set_current(caller, name, eval(p.scopes, e)->Ok_0),
            _ => set_current(caller, name, ValueModel::Noob),
        }
    }
}

/// `q` runs inside the call into `name` made from `m0`: the caller's frames and
/// scopes lie below, untouched, with the call's frame right above them and a scope
/// for each running function.
spec fn inside_call(m0: InterpreterModel, name: Seq<char>, q: InterpreterModel) -> bool {
    let d = m0.frames.len() as int;
    let s = m0.scopes.len() as int;
    &&& q.frames.len() > d
    &&& q.frames.take(d) == caller_frames(m0)
    &&& q.frames[d].kind == FrameKindModel::CallInto(name)
    &&& q.scopes.len() == s + call_count(q.frames.skip(d))
    &&& q.scopes.take(s) == m0.scopes
    &&& q.awaiting is None
}

proof fn lemma_call_count_first(fs: Seq<FrameModel>)
    requires
        fs.len() > 0,
        !(fs[0].kind is Block),
    ensures
        call_count(fs) >= 1,
    decreases fs.len(),
{
    if fs.len() > 1 {
        assert(fs.drop_last()[0] == fs[0]);
        lemma_call_count_first(fs.drop_last());
    } else {
        assert(fs.drop_last().len() == 0);
    }
}

/// Leaving a frame above the call's own keeps the caller's part of the state.
proof fn lemma_leave_inner_frame(m0: InterpreterModel, name: Seq<char>, q: InterpreterModel, r: InterpreterModel)
    requires
        inside_call(m0, name, q),
        q.frames.len() > m0.frames.len() + 1,
        r.frames == q.frames.drop_last(),
        r.awaiting is None,
        q.frames.last().kind is Block ==> r.scopes == q.scopes,
        !(q.frames.last().kind is Block) ==> r.scopes.len() + 1 == q.scopes.len()
            && r.scopes.take(m0.scopes.len() as int) == q.scopes.take(m0.scopes.len() as int),
    ensures
        inside_call(m0, name, r),
{
    let d = m0.frames.len() as int;
    let sk = q.frames.skip(d);
    assert(r.frames.take(d) =~= q.frames.take(d));
    assert(r.frames[d] == q.frames[d]);
    assert(r.frames.skip(d) =~= sk.drop_last());
    assert(sk.last() == q.frames.last());
}

/// What one turn inside a call leads to: still inside it, or, from the call's own
/// frame, back in the caller with the scopes that `scopes_after_call` gives.
spec fn turn_outcome(m0: InterpreterModel, name: Seq<char>, q: InterpreterModel, r: InterpreterModel) -> bool {
    if r.frames.len() > m0.frames.len() {
        inside_call(m0, name, r)
    } else {
        &&& q.frames.len() == m0.frames.len() + 1
        &&& r.frames == caller_frames(m0)
        &&& r.scopes == scopes_after_call(m0.scopes, name, q)
        &&& r.awaiting is None
    }
}

/// The facts about the frames above the caller's that each case below needs.
proof fn lemma_inside_facts(m0: InterpreterModel, name: Seq<char>, q: InterpreterModel)
    requires
        inside_call(m0, name, q),
    ensures
        q.scopes.len() >= m0.scopes.len() + 1,
        q.frames.len() > m0.frames.len() + 1 && !(q.frames.last().kind is Block) ==> q.scopes.len() >= m0.scopes.len() + 2,
        q.frames.len() == m0.frames.len() + 1 ==> q.scopes.len() == m0.scopes.len() + 1
            && q.frames.last().kind == FrameKindModel::CallInto(name),
        m0.scopes.len() > 0 ==> m0.scopes.last() == q.scopes[m0.scopes.len() - 1],
{
    let d = m0.frames.len() as int;
    let sc = m0.scopes.len() as int;
    let fs = q.frames;
    let sk = fs.skip(d);
    assert(sk[0] == fs[d]);
    lemma_call_count_first(sk);
    assert(sk.last() == fs.last());
    if fs.len() > d + 1 {
        assert(sk.drop_last()[0] == fs[d]);
        lemma_call_count_first(sk.drop_last());
    } else {
        assert(sk.drop_last().len() == 0);
    }
    if sc > 0 {
        assert(q.scopes.take(sc)[sc - 1] == q.scopes[sc - 1]);
    }
}

/// A turn that leaves a finished frame.
proof fn lemma_turn_leaves_frame(m0: InterpreterModel, name: Seq<char>, q: InterpreterModel, line: Seq<char>)
    requires
        inside_call(m0, name, q),
        !(0 <= q.frames.last().next < q.frames.last().stmts.len()),
    ensures
        turn_outcome(m0, name, q, turn(q, line).0),
{
    let d = m0.frames.len() as int;
    let sc = m0.scopes.len() as int;
    let top = q.frames.last();
    lemma_inside_facts(m0, name, q);
    let r = InterpreterModel {
        it: q.it,
        scopes: if top.kind is Block { q.scopes } else { pop_scope(q.scopes) },
        functions: q.functions,
        frames: q.frames.drop_last(),
        awaiting: q.awaiting,
    };
    assert(turn(q, line).0 == r);
    if q.frames.len() == d + 1 {
        assert(r.scopes =~= q.scopes.take(sc));
        assert(r.frames =~= q.frames.take(d));
    } else {
        if !(top.kind is Block) {
            assert(r.scopes.take(sc) =~= q.scopes.take(sc));
        }
        lemma_leave_inner_frame(m0, name, q, r);
    }
}

/// The state with the innermost frame's next statement counted as run.
spec fn advance_top(q: InterpreterModel) -> InterpreterModel {
    with_frames(q, q.frames.update(q.frames.len() - 1, advanced(q.frames.last())))
}

proof fn lemma_advance_top_inside(m0: InterpreterModel, name: Seq<char>, q: InterpreterModel)
    requires
        inside_call(m0, name, q),
    ensures
        inside_call(m0, name, advance_top(q)),
        advance_top(q).frames.len() == q.frames.len(),
        advance_top(q).frames.last().kind == q.frames.last().kind,
        advance_top(q).frames.drop_last() == q.frames.drop_last(),
{
    let d = m0.frames.len() as int;
    let fs = q.frames;
    let n = fs.len() as int;
    let f1 = advanced(fs.last());
    let sk = fs.skip(d);
    let q1 = advance_top(q);
    assert(q1.frames.take(d) =~= fs.take(d));
    assert(q1.frames.skip(d) =~= sk.update(sk.len() - 1, f1));
    assert(sk.last() == fs.last());
    lemma_call_count_update_last(sk, f1);
    assert(q1.frames.drop_last() =~= fs.drop_last());
}

/// A turn that returns from a function by `GTFO` or `FOUND YR`.
proof fn lemma_turn_returns(m0: InterpreterModel, name: Seq<char>, q: InterpreterModel, line: Seq<char>)
    requires
        inside_call(m0, name, q),
        0 <= q.frames.last().next < q.frames.last().stmts.len(),
        !(q.frames.last().kind is Block),
        q.frames.last().stmts[q.frames.last().next] is Gtfo || q.frames.last().stmts[q.frames.last().next] is FoundYr,
        !(turn(q, line).1 is Error),
    ensures
        turn_outcome(m0, name, q, turn(q, line).0),
{
    let d = m0.frames.len() as int;
    let sc = m0.scopes.len() as int;
    let top = q.frames.last();
    let st = top.stmts[top.next];
    let q1 = advance_top(q);
    lemma_inside_facts(m0, name, q);
    lemma_advance_top_inside(m0, name, q);
    assert(step_spec(q) == return_from(q1, st, top.kind));
    let r = turn(q, line).0;
    assert(r == return_from(q1, st, top.kind).0);
    if q.frames.len() == d + 1 {
        assert(r.frames =~= q.frames.take(d)) by {
            assert(q1.frames.take(d) =~= q.frames.take(d));
        }
        match st {
            StatementModel::FoundYr(e) => {
                let v = eval(q1.scopes, e)->Ok_0;
                assert(r.scopes =~= set_current(m0.scopes, name, v));
            },
            _ => {
                assert(q.scopes.drop_last() =~= m0.scopes);
            },
        }
    } else {
        assert(r.scopes.take(sc) =~= q.scopes.take(sc));
        lemma_leave_inner_frame(m0, name, q1, r);
    }
}

/// A turn that runs a statement of a block or a body.
proof fn lemma_turn_runs_statement(m0: InterpreterModel, name: Seq<char>, q: InterpreterModel, line: Seq<char>)
    requires
        inside_call(m0, name, q),
        0 <= q.frames.last().next < q.frames.last().stmts.len(),
        !(!(q.frames.last().kind is Block) && (q.frames.last().stmts[q.frames.last().next] is Gtfo
            || q.frames.last().stmts[q.frames.last().next] is FoundYr)),
        !(turn(q, line).1 is Error),
    ensures
        turn_outcome(m0, name, q, turn(q, line).0),
{
    let d = m0.frames.len() as int;
    let sc = m0.scopes.len() as int;
    let top = q.frames.last();
    let st = top.stmts[top.next];
    let q1 = advance_top(q);
    let n = q.frames.len() as int;
    lemma_inside_facts(m0, name, q);
    lemma_advance_top_inside(m0, name, q);
    assert(step_spec(q) == run_statement(q1, st));
    lemma_run_statement_shape(q1, st);
    let r1 = run_statement(q1, st).0;
    assert(r1.frames.take(d) =~= r1.frames.take(n).take(d));
    assert(r1.frames[d] == r1.frames.take(n)[d]);
    if r1.frames.len() == n {
        assert(r1.frames =~= r1.frames.take(n));
        assert(r1.scopes.take(sc) =~= r1.scopes.drop_last().take(sc));
        assert(q1.scopes.take(sc) =~= q1.scopes.drop_last().take(sc));
    } else {
        assert(r1.frames =~= q1.frames.push(r1.frames.last()));
        assert(r1.frames.skip(d) =~= q1.frames.skip(d).push(r1.frames.last()));
        lemma_call_count_push(q1.frames.skip(d), r1.frames.last());
        if !(r1.frames.last().kind is Block) {
            assert(r1.scopes.take(sc) =~= r1.scopes.take(q1.scopes.len() as int).take(sc));
        }
    }
    let r = turn(q, line).0;
    if run_statement(q1, st).1 is ReadLine {
        assert(r.scopes.take(sc) =~= r1.scopes.take(sc));
    }
}

/// One turn inside a call either stays inside it or, from the call's own frame,
/// returns to the caller.
proof fn lemma_turn_inside_call(m0: InterpreterModel, name: Seq<char>, q: InterpreterModel, line: Seq<char>)
    requires
        inside_call(m0, name, q),
        !(turn(q, line).1 is Error),
    ensures
        turn_outcome(m0, name, q, turn(q, line).0),
{
    let top = q.frames.last();
    if !(0 <= top.next < top.stmts.len()) {
        lemma_turn_leaves_frame(m0, name, q, line);
    } else if !(top.kind is Block) && (top.stmts[top.next] is Gtfo || top.stmts[top.next] is FoundYr) {
        lemma_turn_returns(m0, name, q, line);
    } else {
        lemma_turn_runs_statement(m0, name, q, line);
    }
}

/// The statement that the innermost frame runs next.
pub open spec fn next_statement(m: InterpreterModel) -> StatementModel {
    m.frames.last().stmts[m.frames.last().next]
}

/// `m` is about to run a call whose result goes into a variable.
pub open spec fn call_into_is_next(m: InterpreterModel) -> bool {
    &&& m.awaiting is None
    &&& m.frames.len() > 0
    &&& 0 <= m.frames.last().next < m.frames.last().stmts.len()
    &&& next_statement(m) is VarRIIzFunc
}

/// The variable that the call about to run in `m` fills.
pub open spec fn call_target(m: InterpreterModel) -> Seq<char> {
    resolve(m.scopes, next_statement(m)->VarRIIzFunc_0)->Ok_0
}

/// The turn that makes the call enters it.
proof fn lemma_first_turn_enters_call(m: InterpreterModel, line: Seq<char>)
    requires
        call_into_is_next(m),
        !(turn(m, line).1 is Error),
    ensures
        inside_call(m, call_target(m), turn(m, line).0),
{
    let d = m.frames.len() as int;
    let sc = m.scopes.len() as int;
    let st = next_statement(m);
    let m1 = advance_top(m);
    assert(step_spec(m) == run_statement(m1, st));
    let name = call_target(m);
    let f = st->VarRIIzFunc_1;
    let args = st->VarRIIzFunc_2;
    let def = lookup_in(m1.functions, f)->Some_0;
    let vs = eval_from(m1.scopes, args, 0)->Ok_0;
    assert(step_spec(m) == call_function(m1, def, vs, FrameKindModel::CallInto(name)));
    let r = turn(m, line).0;
    let top = FrameModel { stmts: def.body, next: 0, kind: FrameKindModel::CallInto(name) };
    assert(r.frames == m1.frames.push(top));
    assert(r.frames.take(d) =~= caller_frames(m));
    assert(r.frames.skip(d) =~= seq![top]);
    assert(seq![top].drop_last() =~= Seq::<FrameModel>::empty());
    assert(call_count(Seq::<FrameModel>::empty()) == 0);
    assert(seq![top].last() == top);
    assert(call_count(seq![top]) == 1);
    assert(r.scopes.take(sc) =~= m.scopes);
}

/// Every turn of `lines` before the last stays inside the call.
proof fn lemma_turns_inside_call(m: InterpreterModel, lines: Seq<Seq<char>>, j: int)
    requires
        call_into_is_next(m),
        turns_go_on(m, lines),
        forall|k: int| 1 <= k < lines.len() ==> #[trigger] after_turns(m, lines.take(k)).frames.len() > m.frames.len(),
        1 <= j < lines.len(),
    ensures
        inside_call(m, call_target(m), after_turns(m, lines.take(j))),
    decreases j,
{
    let t = lines.take(j);
    assert(t.drop_last() =~= lines.take(j - 1));
    assert(t.last() == lines[j - 1]);
    let q = after_turns(m, lines.take(j - 1));
    assert(after_turns(m, t) == turn(q, lines[j - 1]).0);
    if j == 1 {
        assert(lines.take(0) =~= Seq::<Seq<char>>::empty());
        assert(q == m);
        lemma_first_turn_enters_call(m, lines[0]);
    } else {
        lemma_turns_inside_call(m, lines, j - 1);
        lemma_turn_inside_call(m, call_target(m), q, lines[j - 1]);
    }
}

/// A call `<var> R I IZ <f> ...`, followed turn by turn (a turn hands over a line
/// where the step asks for one) until control is back in the caller, with no turn
/// ending the program: the caller's frames are as they were, one statement further
/// on, and its scopes as they were but for `<var>`, which holds the value of the
/// `FOUND YR` expression (in the function's scope), NOOB after `GTFO`, or keeps its
/// value when the body ran out. Nothing waits for input.
pub proof fn law_call_comes_back(m: InterpreterModel, lines: Seq<Seq<char>>)
    requires
        call_into_is_next(m),
        turns_go_on(m, lines),
        lines.len() >= 1,
        forall|k: int| 1 <= k < lines.len() ==> #[trigger] after_turns(m, lines.take(k)).frames.len() > m.frames.len(),
        after_turns(m, lines).frames.len() <= m.frames.len(),
    ensures
        ({
            let p = after_turns(m, lines.drop_last());
            let r = after_turns(m, lines);
            &&& p.frames.len() == m.frames.len() + 1
            &&& p.frames.last().kind == FrameKindModel::CallInto(call_target(m))
            &&& r.frames == caller_frames(m)
            &&& r.scopes == scopes_after_call(m.scopes, call_target(m), p)
            &&& r.awaiting is None
        }),
{
    let n = lines.len() as int;
    let name = call_target(m);
    assert(lines.take(n) =~= lines);
    assert(lines.take(n - 1) =~= lines.drop_last());
    if n == 1 {
        assert(lines.take(0) =~= Seq::<Seq<char>>::empty());
        assert(lines.drop_last() =~= Seq::<Seq<char>>::empty());
        lemma_first_turn_enters_call(m, lines[0]);
    } else {
        lemma_turns_inside_call(m, lines, n - 1);
        let p = after_turns(m, lines.drop_last());
        lemma_inside_facts(m, name, p);
        lemma_turn_inside_call(m, name, p, lines[n - 1]);
    }
}

// ---------------------------------------------------------------------------
// Names occur once.
// ---------------------------------------------------------------------------

/// Every scope holds each name at most once.
pub open spec fn scopes_distinct(scopes: Seq<Seq<(Seq<char>, ValueModel)>>) -> bool {
    forall|k: int| 0 <= k < scopes.len() ==> distinct_names(#[trigger] scopes[k])
}

/// Each scope, and the table of functions, hold each name at most once (as the maps
/// they stand for do).
pub open spec fn names_distinct(m: InterpreterModel) -> bool {
    &&& scopes_distinct(m.scopes)
    &&& distinct_names(m.functions)
}

proof fn lemma_scopes_update(scopes: Seq<Seq<(Seq<char>, ValueModel)>>, k: int, s: Seq<(Seq<char>, ValueModel)>)
    requires
        scopes_distinct(scopes),
        distinct_names(s),
        0 <= k < scopes.len(),
    ensures
        scopes_distinct(scopes.update(k, s)),
{
    let u = scopes.update(k, s);
    assert forall|j: int| 0 <= j < u.len() implies distinct_names(#[trigger] u[j]) by {
        if j != k {
            assert(u[j] == scopes[j]);
        }
    }
}

proof fn lemma_scopes_push(scopes: Seq<Seq<(Seq<char>, ValueModel)>>, s: Seq<(Seq<char>, ValueModel)>)
    requires
        scopes_distinct(scopes),
        distinct_names(s),
    ensures
        scopes_distinct(scopes.push(s)),
{
    let u = scopes.push(s);
    assert forall|j: int| 0 <= j < u.len() implies distinct_names(#[trigger] u[j]) by {
        if j < scopes.len() {
            assert(u[j] == scopes[j]);
        }
    }
}

proof fn lemma_scopes_pop(scopes: Seq<Seq<(Seq<char>, ValueModel)>>)
    requires
        scopes_distinct(scopes),
    ensures
        scopes_distinct(pop_scope(scopes)),
{
    if scopes.len() > 0 {
        let u = scopes.drop_last();
        assert forall|j: int| 0 <= j < u.len() implies distinct_names(#[trigger] u[j]) by {
            assert(u[j] == scopes[j]);
        }
    }
}

proof fn lemma_set_current_distinct(scopes: Seq<Seq<(Seq<char>, ValueModel)>>, name: Seq<char>, v: ValueModel)
    requires
        scopes_distinct(scopes),
        scopes.len() > 0,
    ensures
        scopes_distinct(set_current(scopes, name, v)),
{
    assert(distinct_names(scopes[scopes.len() - 1]));
    law_updates_keep_names_distinct(scopes.last(), name, v);
    lemma_scopes_update(scopes, scopes.len() - 1, set_in(scopes.last(), name, v));
}

proof fn lemma_bind_params_distinct(ps: Seq<Seq<char>>, vs: Seq<ValueModel>, k: int, acc: Seq<(Seq<char>, ValueModel)>)
    requires
        distinct_names(acc),
    ensures
        distinct_names(bind_params(ps, vs, k, acc)),
    decreases ps.len() - k,
{
    if !(k < 0 || k >= ps.len() || k >= vs.len()) {
        law_updates_keep_names_distinct(acc, ps[k], vs[k]);
        lemma_bind_params_distinct(ps, vs, k + 1, insert_in(acc, ps[k], vs[k]));
    }
}

proof fn lemma_run_statement_names(m: InterpreterModel, s: StatementModel)
    requires
        names_distinct(m),
    ensures
        names_distinct(run_statement(m, s).0),
{
    match s {
        StatementModel::IHasA(id, e) => {
            if resolve(m.scopes, id) is Ok && eval(m.scopes, e) is Ok && m.scopes.len() > 0 {
                let name = resolve(m.scopes, id)->Ok_0;
                let v = eval(m.scopes, e)->Ok_0;
                if lookup_in(m.scopes.last(), name) is None {
                    assert(distinct_names(m.scopes[m.scopes.len() - 1]));
                    lemma_push_new_name(m.scopes.last(), name, v);
                    lemma_scopes_update(m.scopes, m.scopes.len() - 1, m.scopes.last().push((name, v)));
                }
            }
        },
        StatementModel::HowIzI(id, ps, body) => {
            if resolve(m.scopes, id) is Ok && resolve_from(m.scopes, ps, 0) is Ok {
                let name = resolve(m.scopes, id)->Ok_0;
                let params = resolve_from(m.scopes, ps, 0)->Ok_0;
                law_updates_keep_names_distinct(m.functions, name, FunctionModel { params, body });
            }
        },
        StatementModel::IIz(id, args) => {
            if resolve(m.scopes, id) is Ok {
                lemma_call_named_names(m, resolve(m.scopes, id)->Ok_0, args, FrameKindModel::Call);
            }
        },
        StatementModel::VarRIIzFunc(var, f, args) => {
            if resolve(m.scopes, var) is Ok {
                lemma_call_named_names(m, f, args, FrameKindModel::CallInto(resolve(m.scopes, var)->Ok_0));
            }
        },
        StatementModel::Rassignment(id, e) => {
            if m.scopes.len() > 0 && resolve(m.scopes, id) is Ok && eval(m.scopes, e) is Ok {
                lemma_set_current_distinct(m.scopes, resolve(m.scopes, id)->Ok_0, eval(m.scopes, e)->Ok_0);
            }
        },
        StatementModel::Recast(id, t) => {
            if m.scopes.len() > 0 && resolve(m.scopes, id) is Ok {
                let name = resolve(m.scopes, id)->Ok_0;
                if lookup_in(m.scopes.last(), name) is Some {
                    let v = lookup_in(m.scopes.last(), name)->Some_0;
                    if variable_cast(v, t) is Ok {
                        lemma_set_current_distinct(m.scopes, name, variable_cast(v, t)->Ok_0);
                    }
                }
            }
        },
        _ => {},
    }
}

proof fn lemma_call_named_names(m: InterpreterModel, f: Seq<char>, args: Seq<ExprModel>, kind: FrameKindModel)
    requires
        names_distinct(m),
    ensures
        names_distinct(call_named(m, f, args, kind).0),
{
    if lookup_in(m.functions, f) is Some && eval_from(m.scopes, args, 0) is Ok {
        let def = lookup_in(m.functions, f)->Some_0;
        let vs = eval_from(m.scopes, args, 0)->Ok_0;
        lemma_bind_params_distinct(def.params, vs, 0, seq![]);
        lemma_scopes_push(m.scopes, bind_params(def.params, vs, 0, seq![]));
    }
}

/// A new interpreter holds no name twice.
pub proof fn law_fresh_names_distinct()
    ensures
        names_distinct(fresh()),
{
    assert(distinct_names(fresh().scopes[0]));
}

/// Every step keeps each name at most once in each scope and in the function table:
/// a declaration adds a name only where it is not there, and assignments, definitions
/// and parameters replace an entry of the same name.
pub proof fn law_step_keeps_names_distinct(m: InterpreterModel)
    requires
        names_distinct(m),
    ensures
        names_distinct(step_spec(m).0),
{
    if m.awaiting is None && m.frames.len() > 0 {
        let f = m.frames.last();
        if !(0 <= f.next < f.stmts.len()) {
            lemma_scopes_pop(m.scopes);
        } else {
            let s = f.stmts[f.next];
            let m1 = advance_top(m);
            if !(f.kind is Block) && (s is Gtfo || s is FoundYr) {
                match f.kind {
                    FrameKindModel::CallInto(var) => {
                        match s {
                            StatementModel::FoundYr(e) => {
                                if eval(m1.scopes, e) is Ok && m1.scopes.len() >= 2 {
                                    let k = m1.scopes.len() - 2;
                                    let v = eval(m1.scopes, e)->Ok_0;
                                    assert(distinct_names(m1.scopes[k]));
                                    law_updates_keep_names_distinct(m1.scopes[k], var, v);
                                    lemma_scopes_update(m1.scopes, k, set_in(m1.scopes[k], var, v));
                                    lemma_scopes_pop(m1.scopes.update(k, set_in(m1.scopes[k], var, v)));
                                }
                            },
                            _ => {
                                lemma_scopes_pop(m1.scopes);
                                let popped = pop_scope(m1.scopes);
                                if popped.len() > 0 {
                                    lemma_set_current_distinct(popped, var, ValueModel::Noob);
                                }
                            },
                        }
                    },
                    _ => {
                        lemma_scopes_pop(m1.scopes);
                    },
                }
            } else {
                lemma_run_statement_names(m1, s);
            }
        }
    }
}

/// Handing over a line of input keeps each name at most once.
pub proof fn law_input_keeps_names_distinct(m: InterpreterModel, line: Seq<char>)
    requires
        names_distinct(m),
    ensures
        names_distinct(input_spec(m, line)),
{
    if m.awaiting is Some && m.scopes.len() > 0 {
        lemma_set_current_distinct(m.scopes, m.awaiting->Some_0, ValueModel::Yarn(without_line_break(line)));
    }
}

// ---------------------------------------------------------------------------
// Which MEBBE runs; which argument a parameter gets.
// ---------------------------------------------------------------------------

/// A condition that evaluates to a false value.
pub open spec fn condition_false(scopes: Seq<Seq<(Seq<char>, ValueModel)>>, e: ExprModel) -> bool {
    eval(scopes, e) is Ok && !value_as_troof(eval(scopes, e)->Ok_0)
}

/// A condition that evaluates to a true value.
pub open spec fn condition_true(scopes: Seq<Seq<(Seq<char>, ValueModel)>>, e: ExprModel) -> bool {
    eval(scopes, e) is Ok && value_as_troof(eval(scopes, e)->Ok_0)
}

proof fn lemma_first_true_mebbe_from(scopes: Seq<Seq<(Seq<char>, ValueModel)>>, ms: Seq<MebbeModel>, j: int, k: int)
    requires
        0 <= j <= k < ms.len(),
        forall|q: int| j <= q < k ==> condition_false(scopes, #[trigger] ms[q].expr),
        condition_true(scopes, ms[k].expr),
    ensures
        pick_mebbe(scopes, ms, j) == Ok::<Option<Seq<StatementModel>>, AppErrorModel>(Some(ms[k].statements)),
    decreases k - j,
{
    if j < k {
        assert(condition_false(scopes, ms[j].expr));
        lemma_first_true_mebbe_from(scopes, ms, j + 1, k);
    }
}

/// The MEBBE block chosen is the first one whose condition is true: when MEBBE `k`'s
/// condition is true and every earlier condition is false (none failing), block `k`
/// is chosen, whatever the later conditions are.
pub proof fn law_first_true_mebbe_chosen(scopes: Seq<Seq<(Seq<char>, ValueModel)>>, ms: Seq<MebbeModel>, k: int)
    requires
        0 <= k < ms.len(),
        forall|q: int| 0 <= q < k ==> condition_false(scopes, #[trigger] ms[q].expr),
        condition_true(scopes, ms[k].expr),
    ensures
        pick_mebbe(scopes, ms, 0) == Ok::<Option<Seq<StatementModel>>, AppErrorModel>(Some(ms[k].statements)),
{
    lemma_first_true_mebbe_from(scopes, ms, 0, k);
}

proof fn lemma_no_true_mebbe_from(scopes: Seq<Seq<(Seq<char>, ValueModel)>>, ms: Seq<MebbeModel>, j: int)
    requires
        0 <= j <= ms.len(),
        forall|q: int| j <= q < ms.len() ==> condition_false(scopes, #[trigger] ms[q].expr),
    ensures
        pick_mebbe(scopes, ms, j) == Ok::<Option<Seq<StatementModel>>, AppErrorModel>(None),
    decreases ms.len() - j,
{
    if j < ms.len() {
        assert(condition_false(scopes, ms[j].expr));
        lemma_no_true_mebbe_from(scopes, ms, j + 1);
    }
}

/// `O RLY?` with IT false runs the first MEBBE block whose condition is true (the
/// conditions before it all false); with every condition false it runs `NO WAI`; with
/// IT true it runs `YA RLY` without looking at any condition.
pub proof fn law_o_rly_runs_the_right_block(
    m: InterpreterModel,
    ya: Seq<StatementModel>,
    ms: Seq<MebbeModel>,
    no_wai: Seq<StatementModel>,
    k: int,
)
    requires
        m.it is Some,
    ensures
        value_as_troof(m.it->Some_0) ==> o_rly_step(m, ya, ms, no_wai) == enter_block(m, ya),
        !value_as_troof(m.it->Some_0) && 0 <= k < ms.len()
            && (forall|q: int| 0 <= q < k ==> condition_false(m.scopes, #[trigger] ms[q].expr))
            && condition_true(m.scopes, ms[k].expr)
            ==> o_rly_step(m, ya, ms, no_wai) == enter_block(m, ms[k].statements),
        !value_as_troof(m.it->Some_0)
            && (forall|q: int| 0 <= q < ms.len() ==> condition_false(m.scopes, #[trigger] ms[q].expr))
            ==> o_rly_step(m, ya, ms, no_wai) == enter_block(m, no_wai),
{
    if !value_as_troof(m.it->Some_0) {
        if 0 <= k < ms.len()
            && (forall|q: int| 0 <= q < k ==> condition_false(m.scopes, #[trigger] ms[q].expr))
            && condition_true(m.scopes, ms[k].expr) {
            law_first_true_mebbe_chosen(m.scopes, ms, k);
        }
        if forall|q: int| 0 <= q < ms.len() ==> condition_false(m.scopes, #[trigger] ms[q].expr) {
            lemma_no_true_mebbe_from(m.scopes, ms, 0);
        }
    }
}

proof fn lemma_bind_keeps(ps: Seq<Seq<char>>, vs: Seq<ValueModel>, j: int, acc: Seq<(Seq<char>, ValueModel)>, x: Seq<char>)
    requires
        0 <= j,
        forall|q: int| j <= q < ps.len() ==> ps[q] != x,
    ensures
        lookup_in(bind_params(ps, vs, j, acc), x) == lookup_in(acc, x),
    decreases ps.len() - j,
{
    if !(j < 0 || j >= ps.len() || j >= vs.len()) {
        lemma_lookup_after_insert_other(acc, ps[j], vs[j], x);
        lemma_bind_keeps(ps, vs, j + 1, insert_in(acc, ps[j], vs[j]), x);
    }
}

proof fn lemma_bind_param_at(ps: Seq<Seq<char>>, vs: Seq<ValueModel>, j: int, acc: Seq<(Seq<char>, ValueModel)>, i: int)
    requires
        ps.len() == vs.len(),
        0 <= j <= i < ps.len(),
        forall|q: int| i < q < ps.len() ==> ps[q] != ps[i],
    ensures
        lookup_in(bind_params(ps, vs, j, acc), ps[i]) == Some(vs[i]),
    decreases ps.len() - j,
{
    if j < i {
        lemma_bind_param_at(ps, vs, j + 1, insert_in(acc, ps[j], vs[j]), i);
    } else {
        lemma_lookup_after_insert(acc, ps[i], vs[i]);
        lemma_bind_keeps(ps, vs, i + 1, insert_in(acc, ps[i], vs[i]), ps[i]);
    }
}

/// In the scope of a call, a parameter gets the argument at its own position (for a
/// name given twice, the position of its last occurrence).
pub proof fn law_parameters_get_their_arguments(ps: Seq<Seq<char>>, vs: Seq<ValueModel>, i: int)
    requires
        ps.len() == vs.len(),
        0 <= i < ps.len(),
        forall|q: int| i < q < ps.len() ==> ps[q] != ps[i],
    ensures
        lookup_in(bind_params(ps, vs, 0, seq![]), ps[i]) == Some(vs[i]),
{
    lemma_bind_param_at(ps, vs, 0, seq![], i);
}

/// A call that goes through opens a scope in which each parameter holds the argument
/// at its own position (the last one for a repeated name), and runs the body next.
pub proof fn law_call_binds_arguments_in_order(m: InterpreterModel, f: Seq<char>, args: Seq<ExprModel>, kind: FrameKindModel, i: int)
    requires
        lookup_in(m.functions, f) matches Some(def) && eval_from(m.scopes, args, 0) matches Ok(vs) && def.params.len() == vs.len()
            && 0 <= i < vs.len() && (forall|q: int| i < q < def.params.len() ==> def.params[q] != def.params[i]),
    ensures
        ({
            let def = lookup_in(m.functions, f)->Some_0;
            let vs = eval_from(m.scopes, args, 0)->Ok_0;
            let r = call_named(m, f, args, kind);
            &&& r.1 == ActionModel::Continue
            &&& r.0.scopes.len() == m.scopes.len() + 1
            &&& lookup_in(r.0.scopes.last(), def.params[i]) == Some(vs[i])
            &&& r.0.frames.last() == FrameModel { stmts: def.body, next: 0, kind }
        }),
{
    let def = lookup_in(m.functions, f)->Some_0;
    let vs = eval_from(m.scopes, args, 0)->Ok_0;
    law_parameters_get_their_arguments(def.params, vs, i);
}

} // verus!
