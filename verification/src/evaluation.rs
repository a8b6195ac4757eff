//! The values of expressions: variable scopes, casts, interpolation in YARNs, and
//! evaluation.

use vstd::prelude::*;
use crate::app_error::{AppError, AppErrorModel};
use crate::decimal::{Decimal, decimal_to_i64};
use crate::expression::{CastTypes, Expr, ExprModel, IdentModel, IdentifierExpr, expr_views, lemma_expr_views};
use crate::text::{find_char, is_scalar_value, parse_hex_u32, trim, all_hex, hex_int, hex_value, is_white_space, trim_end, trim_start, upper_text, law_hex_text_either_case, law_hex_value_either_case};
use crate::text::{char_from_u32, lemma_find_char_unique, parse_hex_u32_chars, string_of, trim_chars};
use crate::expression::ComparisonOp;
use crate::types::{Value, ValueModel, bool_result, comparison_result, eval_bool_expr, eval_comparison_expr, eval_maths_expr, maths_result, value_as_number, value_as_troof, value_as_yarn, value_text, value_views};
use crate::types::identifier::{Identifier, is_valid_identifier};
use crate::types::primitive::{Number, NumberModel, Numbar, Numbr, Troof, Yarn};

verus! {

// ---------------------------------------------------------------------------
// Scopes and the function table: lists of named entries; the first entry with a
// name is the one that counts.
// ---------------------------------------------------------------------------

/// Index of the first entry named `name`, or the length when there is none.
pub open spec fn find_name<V>(es: Seq<(Seq<char>, V)>, name: Seq<char>) -> int
    decreases es.len(),
{
    if es.len() == 0 {
        0
    } else if es[0].0 == name {
        0
    } else {
        1 + find_name(es.drop_first(), name)
    }
}

/// What the entry named `name` holds, if there is one.
pub open spec fn lookup_in<V>(es: Seq<(Seq<char>, V)>, name: Seq<char>) -> Option<V> {
    let i = find_name(es, name);
    if 0 <= i < es.len() {
        Some(es[i].1)
    } else {
        None
    }
}

/// The entry named `name` gets the value `v`; without such an entry nothing changes.
pub open spec fn set_in<V>(es: Seq<(Seq<char>, V)>, name: Seq<char>, v: V) -> Seq<(Seq<char>, V)> {
    let i = find_name(es, name);
    if 0 <= i < es.len() {
        es.update(i, (name, v))
    } else {
        es
    }
}

/// The entry named `name` gets the value `v`; without such an entry one is added.
pub open spec fn insert_in<V>(es: Seq<(Seq<char>, V)>, name: Seq<char>, v: V) -> Seq<(Seq<char>, V)> {
    let i = find_name(es, name);
    if 0 <= i < es.len() {
        es.update(i, (name, v))
    } else {
        es.push((name, v))
    }
}

/// The value of a variable: the innermost scope that has it wins.
pub open spec fn lookup_variable(scopes: Seq<Seq<(Seq<char>, ValueModel)>>, name: Seq<char>) -> Option<ValueModel>
    decreases scopes.len(),
{
    if scopes.len() == 0 {
        None
    } else {
        match lookup_in(scopes.last(), name) {
            Some(v) => Some(v),
            None => lookup_variable(scopes.drop_last(), name),
        }
    }
}

/// The value of a variable in the current (innermost) scope only, NOOB when it is
/// not there.
pub open spec fn current_or_noob(scopes: Seq<Seq<(Seq<char>, ValueModel)>>, name: Seq<char>) -> ValueModel {
    match lookup_in(scopes.last(), name) {
        Some(v) => v,
        None => ValueModel::Noob,
    }
}

// ---------------------------------------------------------------------------
// Casts.
// ---------------------------------------------------------------------------

/// The value that a NOOB variable becomes when cast to a type: that type's default.
pub open spec fn default_of(t: CastTypes) -> ValueModel {
    match t {
        CastTypes::Troof => ValueModel::Troof(false),
        CastTypes::Yarn => ValueModel::Yarn(seq![]),
        CastTypes::Numbr => ValueModel::Numbr(0),
        CastTypes::Numbar => ValueModel::Numbar((0int, 0int)),
        CastTypes::Noob => ValueModel::Noob,
    }
}

/// The number a value stands for when cast to a number type: the value read as a
/// number, or zero when it cannot be.
pub open spec fn number_or_zero(v: ValueModel) -> NumberModel {
    match value_as_number(v) {
        Ok(n) => n,
        Err(_) => NumberModel::Int(0),
    }
}

/// Casts a value to a type: TROOF by truth, YARN by `value_as_yarn`, NUMBR by the
/// integer part (an error when it does not fit), NUMBAR exactly, NOOB to NOOB.
pub open spec fn value_cast(v: ValueModel, t: CastTypes) -> Result<ValueModel, AppErrorModel> {
    match t {
        CastTypes::Troof => Ok(ValueModel::Troof(value_as_troof(v))),
        CastTypes::Yarn => match value_as_yarn(v) {
            Ok(y) => Ok(ValueModel::Yarn(y)),
            Err(e) => Err(e),
        },
        CastTypes::Numbr => match number_or_zero(v) {
            NumberModel::Int(i) => Ok(ValueModel::Numbr(i)),
            NumberModel::Decimal(d) => match decimal_to_i64(d) {
                Some(i) => Ok(ValueModel::Numbr(i)),
                None => Err(AppErrorModel::NumberOverflow),
            },
        },
        CastTypes::Numbar => match number_or_zero(v) {
            NumberModel::Int(i) => Ok(ValueModel::Numbar((i as int, 0int))),
            NumberModel::Decimal(d) => Ok(ValueModel::Numbar(d)),
        },
        CastTypes::Noob => Ok(ValueModel::Noob),
    }
}

/// A cast of a variable's value: NOOB becomes the type's default, anything else is
/// cast.
pub open spec fn variable_cast(v: ValueModel, t: CastTypes) -> Result<ValueModel, AppErrorModel> {
    if v is Noob {
        Ok(default_of(t))
    } else {
        value_cast(v, t)
    }
}

// ---------------------------------------------------------------------------
// Interpolation in YARNs: `:{name}` is the value of a variable of the current
// scope, `:(hex)` the character with that code point.
// ---------------------------------------------------------------------------

/// `:{name}` after its opening: the value of `name` in the current scope (NOOB when
/// it is not there) and how many characters the part took, closing brace included.
pub open spec fn interpolated_variable(scopes: Seq<Seq<(Seq<char>, ValueModel)>>, cs: Seq<char>) -> Result<(ValueModel, int), AppErrorModel> {
    let j = find_char(cs, '}');
    if j >= cs.len() {
        Err(AppErrorModel::UnclosedInterpolation)
    } else {
        let inner = trim(cs.take(j));
        if !is_valid_identifier(inner) {
            Err(AppErrorModel::InvalidIdentifier(inner))
        } else if scopes.len() == 0 {
            Err(AppErrorModel::CouldNotGetCurrentVariableScope)
        } else {
            Ok((current_or_noob(scopes, inner), j + 1))
        }
    }
}

/// `:(hex)` after its opening: a YARN of the character with that code point, and
/// how many characters the part took, closing parenthesis included.
pub open spec fn interpolated_hex(cs: Seq<char>) -> Result<(ValueModel, int), AppErrorModel> {
    let j = find_char(cs, ')');
    if j >= cs.len() {
        Err(AppErrorModel::UnclosedInterpolation)
    } else {
        match parse_hex_u32(trim(cs.take(j))) {
            Some(u) => if is_scalar_value(u) {
                Ok((ValueModel::Yarn(seq![u as char]), j + 1))
            } else {
                Err(AppErrorModel::InvalidUnicodeCodepoint)
            },
            None => Err(AppErrorModel::InvalidUnicodeCodepoint),
        }
    }
}

/// The interpolated text of `cs` from index `i` on.
pub open spec fn interpolate_from(scopes: Seq<Seq<(Seq<char>, ValueModel)>>, cs: Seq<char>, i: int) -> Result<Seq<char>, AppErrorModel>
    decreases cs.len() - i,
{
    if i < 0 || i >= cs.len() {
        Ok(seq![])
    } else if cs[i] == ':' && i + 1 < cs.len() && (cs[i + 1] == '{' || cs[i + 1] == '(') {
        let part = if cs[i + 1] == '{' {
            interpolated_variable(scopes, cs.skip(i + 2))
        } else {
            interpolated_hex(cs.skip(i + 2))
        };
        match part {
            Err(e) => Err(e),
            Ok((v, c)) => if c < 0 {
                Err(AppErrorModel::UnclosedInterpolation)
            } else {
                match interpolate_from(scopes, cs, i + 2 + c) {
                    Err(e) => Err(e),
                    Ok(rest) => Ok(value_text(v) + rest),
                }
            },
        }
    } else if cs[i] == ':' && i + 1 < cs.len() && cs[i + 1] == '[' {
        Err(AppErrorModel::UnsupportedInterpolation)
    } else {
        match interpolate_from(scopes, cs, i + 1) {
            Err(e) => Err(e),
            Ok(rest) => Ok(seq![cs[i]] + rest),
        }
    }
}

// ---------------------------------------------------------------------------
// Evaluation.
// ---------------------------------------------------------------------------

/// The name a name expression gives: the identifier itself, or (for `SRS`) the
/// YARN its expression evaluates to, which must be a valid name.
pub open spec fn resolve(scopes: Seq<Seq<(Seq<char>, ValueModel)>>, id: IdentModel) -> Result<Seq<char>, AppErrorModel>
    decreases id, 0int,
{
    match id {
        IdentModel::Identifier(s) => Ok(s),
        IdentModel::Srs(e) => match eval(scopes, *e) {
            Err(err) => Err(err),
            Ok(v) => match value_as_yarn(v) {
                Err(err) => Err(err),
                Ok(y) => if is_valid_identifier(y) {
                    Ok(y)
                } else {
                    Err(AppErrorModel::InvalidIdentifier(y))
                },
            },
        },
    }
}

/// The values of the expressions from index `k` on, in order; the first error stops.
pub open spec fn eval_from(scopes: Seq<Seq<(Seq<char>, ValueModel)>>, es: Seq<ExprModel>, k: int) -> Result<Seq<ValueModel>, AppErrorModel>
    decreases es, es.len() - k,
{
    if k < 0 || k >= es.len() {
        Ok(seq![])
    } else {
        match eval(scopes, es[k]) {
            Err(e) => Err(e),
            Ok(v) => match eval_from(scopes, es, k + 1) {
                Err(e) => Err(e),
                Ok(vs) => Ok(seq![v] + vs),
            },
        }
    }
}

/// SMOOSH from index `k` on: each value in order, evaluated then written as a YARN;
/// the first error stops.
pub open spec fn smoosh_from(scopes: Seq<Seq<(Seq<char>, ValueModel)>>, es: Seq<ExprModel>, k: int) -> Result<Seq<char>, AppErrorModel>
    decreases es, es.len() - k,
{
    if k < 0 || k >= es.len() {
        Ok(seq![])
    } else {
        match eval(scopes, es[k]) {
            Err(e) => Err(e),
            Ok(v) => match value_as_yarn(v) {
                Err(e) => Err(e),
                Ok(y) => match smoosh_from(scopes, es, k + 1) {
                    Err(e) => Err(e),
                    Ok(rest) => Ok(y + rest),
                },
            },
        }
    }
}

/// The value of an expression in the given scopes (innermost last).
pub open spec fn eval(scopes: Seq<Seq<(Seq<char>, ValueModel)>>, e: ExprModel) -> Result<ValueModel, AppErrorModel>
    decreases e, 0int,
{
    match e {
        ExprModel::Numbar(n) => Ok(ValueModel::Numbar(n)),
        ExprModel::Numbr(n) => Ok(ValueModel::Numbr(n)),
        ExprModel::Troof(b) => Ok(ValueModel::Troof(b)),
        ExprModel::Noob => Ok(ValueModel::Noob),
        ExprModel::Yarn(s) => match interpolate_from(scopes, s, 0) {
            Ok(t) => Ok(ValueModel::Yarn(t)),
            Err(err) => Err(err),
        },
        ExprModel::Smoosh(args) => match smoosh_from(scopes, args, 0) {
            Ok(t) => Ok(ValueModel::Yarn(t)),
            Err(err) => Err(err),
        },
        ExprModel::Maek(inner, t) => match *inner {
            ExprModel::Variable(id) => if scopes.len() == 0 {
                Err(AppErrorModel::CouldNotGetCurrentVariableScope)
            } else {
                match resolve(scopes, id) {
                    Err(err) => Err(err),
                    Ok(name) => variable_cast(current_or_noob(scopes, name), t),
                }
            },
            _ => match eval(scopes, *inner) {
                Err(err) => Err(err),
                Ok(v) => value_cast(v, t),
            },
        },
        ExprModel::Variable(id) => match resolve(scopes, id) {
            Err(err) => Err(err),
            Ok(name) => Ok(
                match lookup_variable(scopes, name) {
                    Some(v) => v,
                    None => ValueModel::Noob,
                },
            ),
        },
        ExprModel::Math(op, l, r) => match eval(scopes, *l) {
            Err(err) => Err(err),
            Ok(lv) => match eval(scopes, *r) {
                Err(err) => Err(err),
                Ok(rv) => maths_result(op, lv, rv),
            },
        },
        ExprModel::Bool(op, args) => match eval_from(scopes, args, 0) {
            Err(err) => Err(err),
            Ok(vs) => bool_result(op, vs),
        },
        ExprModel::Comparison(op, l, r) => match eval(scopes, *l) {
            Err(err) => Err(err),
            Ok(lv) => match eval(scopes, *r) {
                Err(err) => Err(err),
                Ok(rv) => Ok(comparison_result(op, lv, rv)),
            },
        },
        ExprModel::Negation(inner) => match eval(scopes, *inner) {
            Err(err) => Err(err),
            Ok(v) => Ok(ValueModel::Troof(!value_as_troof(v))),
        },
    }
}

// ---------------------------------------------------------------------------
// The executable side.
// ---------------------------------------------------------------------------

/// A scope by its names and values.
pub open spec fn scope_view(s: Seq<(Identifier, Value)>) -> Seq<(Seq<char>, ValueModel)> {
    s.map_values(|e: (Identifier, Value)| (e.0@, e.1@))
}

/// The scopes by their names and values.
pub open spec fn scopes_view(v: Seq<Vec<(Identifier, Value)>>) -> Seq<Seq<(Seq<char>, ValueModel)>> {
    v.map_values(|s: Vec<(Identifier, Value)>| scope_view(s@))
}

/// A value, if there is one, by its view.
pub open spec fn opt_value_view(o: Option<Value>) -> Option<ValueModel> {
    match o {
        Some(v) => Some(v@),
        None => None,
    }
}

/// A result that follows the part `p`.
pub open spec fn prepend_ok<T>(p: Seq<T>, r: Result<Seq<T>, AppErrorModel>) -> Result<Seq<T>, AppErrorModel> {
    match r {
        Ok(x) => Ok(p + x),
        Err(e) => Err(e),
    }
}

pub proof fn lemma_find_name<V>(es: Seq<(Seq<char>, V)>, name: Seq<char>, k: int)
    requires
        0 <= k <= es.len(),
        forall|j: int| 0 <= j < k ==> es[j].0 != name,
        k < es.len() ==> es[k].0 == name,
    ensures
        find_name(es, name) == k,
    decreases k,
{
    if k > 0 {
        let d = es.drop_first();
        assert forall|j: int| 0 <= j < k - 1 implies d[j].0 != name by {
            assert(d[j] == es[j + 1]);
        }
        lemma_find_name(d, name, k - 1);
    }
}

/// `find_name` gives the first entry with the name, or the length.
pub proof fn lemma_find_name_bounds<V>(es: Seq<(Seq<char>, V)>, name: Seq<char>)
    ensures
        0 <= find_name(es, name) <= es.len(),
        forall|j: int| 0 <= j < find_name(es, name) ==> es[j].0 != name,
        find_name(es, name) < es.len() ==> es[find_name(es, name)].0 == name,
    decreases es.len(),
{
    if es.len() > 0 && es[0].0 != name {
        let d = es.drop_first();
        lemma_find_name_bounds(d, name);
        assert forall|j: int| 0 <= j < find_name(es, name) implies es[j].0 != name by {
            if j > 0 {
                assert(es[j] == d[j - 1]);
            }
        }
    }
}

/// A name added at the end of a list that lacks it is found there.
pub proof fn lemma_lookup_after_push<V>(es: Seq<(Seq<char>, V)>, name: Seq<char>, v: V)
    requires
        lookup_in(es, name) is None,
    ensures
        lookup_in(es.push((name, v)), name) == Some(v),
{
    lemma_find_name_bounds(es, name);
    let es2 = es.push((name, v));
    assert forall|j: int| 0 <= j < es.len() implies es2[j].0 != name by {
        assert(es2[j] == es[j]);
    }
    lemma_find_name(es2, name, es.len() as int);
}

/// After the entry of a name gets a value, the name gives that value.
pub proof fn lemma_lookup_after_set<V>(es: Seq<(Seq<char>, V)>, name: Seq<char>, v: V)
    requires
        lookup_in(es, name) is Some,
    ensures
        lookup_in(set_in(es, name, v), name) == Some(v),
{
    lemma_find_name_bounds(es, name);
    let i = find_name(es, name);
    let es2 = es.update(i, (name, v));
    assert forall|j: int| 0 <= j < i implies es2[j].0 != name by {
        assert(es2[j] == es[j]);
    }
    lemma_find_name(es2, name, i);
}

/// After a name is inserted with a value, it gives that value.
pub proof fn lemma_lookup_after_insert<V>(es: Seq<(Seq<char>, V)>, name: Seq<char>, v: V)
    ensures
        lookup_in(insert_in(es, name, v), name) == Some(v),
{
    lemma_find_name_bounds(es, name);
    if find_name(es, name) < es.len() {
        lemma_lookup_after_set(es, name, v);
    } else {
        lemma_lookup_after_push(es, name, v);
    }
}

/// Inserting one name leaves what every other name gives unchanged.
pub proof fn lemma_lookup_after_insert_other<V>(es: Seq<(Seq<char>, V)>, name: Seq<char>, v: V, other: Seq<char>)
    requires
        name != other,
    ensures
        lookup_in(insert_in(es, name, v), other) == lookup_in(es, other),
{
    lemma_find_name_bounds(es, name);
    lemma_find_name_bounds(es, other);
    let i = find_name(es, name);
    let k = find_name(es, other);
    let es2 = insert_in(es, name, v);
    if i < es.len() {
        assert forall|j: int| 0 <= j < k implies es2[j].0 != other by {
            assert(es2[j].0 == es[j].0);
        }
        if k < es.len() {
            assert(k != i);
            assert(es2[k] == es[k]);
        }
        lemma_find_name(es2, other, k);
    } else {
        assert forall|j: int| 0 <= j < k implies es2[j].0 != other by {
            assert(es2[j] == es[j]);
        }
        if k < es.len() {
            assert(es2[k] == es[k]);
            lemma_find_name(es2, other, k);
        } else {
            assert(es2[es.len() as int].0 == name);
            lemma_find_name(es2, other, es2.len() as int);
        }
    }
}

/// Index of the variable `name` in the scope (the length when it is not there).
pub fn find_variable(scope: &Vec<(Identifier, Value)>, name: &Identifier) -> (r: usize)
    ensures
        r == find_name(scope_view(scope@), name@),
        r <= scope@.len(),
{
    let ghost es = scope_view(scope@);
    let n = scope.len();
    let mut k: usize = 0;
    while k < n && !scope[k].0.same(name)
        invariant
            k <= n == scope@.len(),
            es == scope_view(scope@),
            forall|j: int| 0 <= j < k ==> es[j].0 != name@,
        decreases n - k,
    {
        k = k + 1;
    }
    proof {
        lemma_find_name(es, name@, k as int);
    }
    k
}

/// A copy of the value of `name` in the scope, if it is there.
pub fn get_variable(scope: &Vec<(Identifier, Value)>, name: &Identifier) -> (r: Option<Value>)
    ensures
        opt_value_view(r) == lookup_in(scope_view(scope@), name@),
{
    let k = find_variable(scope, name);
    if k < scope.len() {
        Some(scope[k].1.copy())
    } else {
        None
    }
}

/// The value of `name` in the current scope, NOOB when it is not there.
fn current_or_noob_value(scopes: &Vec<Vec<(Identifier, Value)>>, name: &Identifier) -> (r: Value)
    requires
        scopes@.len() > 0,
    ensures
        r@ == current_or_noob(scopes_view(scopes@), name@),
{
    let n = scopes.len();
    assert(scopes_view(scopes@).last() == scope_view(scopes@[n - 1]@));
    match get_variable(&scopes[n - 1], name) {
        Some(v) => v,
        None => Value::Noob,
    }
}

/// The value of a variable, the innermost scope first; NOOB when no scope has it.
pub fn lookup_variable_value(scopes: &Vec<Vec<(Identifier, Value)>>, name: &Identifier) -> (r: Value)
    ensures
        r@ == (match lookup_variable(scopes_view(scopes@), name@) {
            Some(v) => v,
            None => ValueModel::Noob,
        }),
{
    let ghost all = scopes_view(scopes@);
    let mut k: usize = scopes.len();
    assert(all.take(k as int) =~= all);
    while k > 0
        invariant
            k <= scopes@.len(),
            all == scopes_view(scopes@),
            lookup_variable(all, name@) == lookup_variable(all.take(k as int), name@),
        decreases k,
    {
        let ghost pre = all.take(k as int);
        assert(pre.last() == scope_view(scopes@[k - 1]@));
        assert(pre.drop_last() =~= all.take(k - 1));
        match get_variable(&scopes[k - 1], name) {
            Some(v) => {
                return v;
            },
            None => {},
        }
        k = k - 1;
    }
    Value::Noob
}

/// Casts a value to a type (see `value_cast`).
pub fn cast_value(value: &Value, cast_type: CastTypes) -> (r: Result<Value, AppError>)
    ensures
        r matches Ok(v) ==> value_cast(value@, cast_type) == Ok::<ValueModel, AppErrorModel>(v@),
        r matches Err(e) ==> value_cast(value@, cast_type) == Err::<ValueModel, AppErrorModel>(e@),
{
    match cast_type {
        CastTypes::Troof => Ok(Value::Troof(value.as_troof())),
        CastTypes::Yarn => {
            let y = value.as_yarn()?;
            Ok(Value::Yarn(y))
        },
        CastTypes::Numbr => {
            let number = match value.as_number() {
                Ok(n) => n,
                Err(_) => Number::Int(0),
            };
            match number {
                Number::Int(whole) => Ok(Value::Numbr(Numbr::new(whole))),
                Number::Decimal(decimal) => match decimal.to_i64() {
                    Some(whole) => Ok(Value::Numbr(Numbr::new(whole))),
                    None => Err(AppError::NumberOverflow),
                },
            }
        },
        CastTypes::Numbar => {
            let number = match value.as_number() {
                Ok(n) => n,
                Err(_) => Number::Int(0),
            };
            match number {
                Number::Int(whole) => Ok(Value::Numbar(Numbar::new(Decimal::from_i64(whole)))),
                Number::Decimal(decimal) => Ok(Value::Numbar(Numbar::new(decimal))),
            }
        },
        CastTypes::Noob => Ok(Value::Noob),
    }
}

/// The default value of a type (what a NOOB variable is cast to).
pub fn default_value(cast_type: CastTypes) -> (r: Value)
    ensures
        r@ == default_of(cast_type),
{
    match cast_type {
        CastTypes::Troof => Value::Troof(Troof::new(false)),
        CastTypes::Yarn => Value::Yarn(Yarn::empty()),
        CastTypes::Numbr => Value::Numbr(Numbr::new(0)),
        CastTypes::Numbar => Value::Numbar(Numbar::zero()),
        CastTypes::Noob => Value::Noob,
    }
}

/// Casts a variable's value (see `variable_cast`).
pub fn cast_variable(value: &Value, cast_type: CastTypes) -> (r: Result<Value, AppError>)
    ensures
        r matches Ok(v) ==> variable_cast(value@, cast_type) == Ok::<ValueModel, AppErrorModel>(v@),
        r matches Err(e) ==> variable_cast(value@, cast_type) == Err::<ValueModel, AppErrorModel>(e@),
{
    if matches!(value, Value::Noob) {
        Ok(default_value(cast_type))
    } else {
        cast_value(value, cast_type)
    }
}

/// The characters of `s` in `[a, b)`.
fn char_range(s: &[char], a: usize, b: usize) -> (r: Vec<char>)
    requires
        a <= b <= s@.len(),
    ensures
        r@ == s@.subrange(a as int, b as int),
{
    let mut r: Vec<char> = Vec::new();
    let mut k: usize = a;
    while k < b
        invariant
            a <= k <= b <= s@.len(),
            r@ == s@.subrange(a as int, k as int),
        decreases b - k,
    {
        r.push(s[k]);
        k = k + 1;
        assert(r@ =~= s@.subrange(a as int, k as int));
    }
    r
}

/// Index of the first `c` in `s` from `start` on, or the length.
fn find_from(s: &[char], start: usize, c: char) -> (r: usize)
    requires
        start <= s@.len(),
    ensures
        start <= r <= s@.len(),
        r - start == find_char(s@.skip(start as int), c),
{
    let n = s.len();
    let mut j: usize = start;
    while j < n && s[j] != c
        invariant
            start <= j <= n == s@.len(),
            forall|k: int| start <= k < j ==> s@[k] != c,
        decreases n - j,
    {
        j = j + 1;
    }
    proof {
        let t = s@.skip(start as int);
        assert forall|k: int| 0 <= k < j - start implies t[k] != c by {
            assert(t[k] == s@[start + k]);
        }
        lemma_find_char_unique(t, c, j - start);
    }
    j
}

/// `:{name}` whose name starts at `start` (see `interpolated_variable`).
fn interpolate_variable(scopes: &Vec<Vec<(Identifier, Value)>>, cs: &[char], start: usize) -> (r: Result<(Value, usize), AppError>)
    requires
        start <= cs@.len(),
    ensures
        r matches Ok((v, c)) ==> interpolated_variable(scopes_view(scopes@), cs@.skip(start as int)) == Ok::<(ValueModel, int), AppErrorModel>((v@, c as int))
            && 1 <= c <= cs@.len() - start,
        r matches Err(e) ==> interpolated_variable(scopes_view(scopes@), cs@.skip(start as int)) == Err::<(ValueModel, int), AppErrorModel>(e@),
{
    let j = find_from(cs, start, '}');
    if j >= cs.len() {
        return Err(AppError::UnclosedInterpolation);
    }
    let raw = char_range(cs, start, j);
    assert(raw@ =~= cs@.skip(start as int).take(j - start));
    let inner = trim_chars(raw.as_slice());
    let id = Identifier::new(string_of(inner.as_slice()))?;
    if scopes.len() == 0 {
        return Err(AppError::CouldNotGetCurrentVariableScope);
    }
    let v = current_or_noob_value(scopes, &id);
    Ok((v, j - start + 1))
}

/// `:(hex)` whose code starts at `start` (see `interpolated_hex`).
fn interpolate_hex(cs: &[char], start: usize) -> (r: Result<(Value, usize), AppError>)
    requires
        start <= cs@.len(),
    ensures
        r matches Ok((v, c)) ==> interpolated_hex(cs@.skip(start as int)) == Ok::<(ValueModel, int), AppErrorModel>((v@, c as int))
            && 1 <= c <= cs@.len() - start,
        r matches Err(e) ==> interpolated_hex(cs@.skip(start as int)) == Err::<(ValueModel, int), AppErrorModel>(e@),
{
    let j = find_from(cs, start, ')');
    if j >= cs.len() {
        return Err(AppError::UnclosedInterpolation);
    }
    let raw = char_range(cs, start, j);
    assert(raw@ =~= cs@.skip(start as int).take(j - start));
    let inner = trim_chars(raw.as_slice());
    let codepoint = match parse_hex_u32_chars(inner.as_slice()) {
        Some(u) => u,
        None => {
            return Err(AppError::InvalidUnicodeCodepoint);
        },
    };
    let ch = match char_from_u32(codepoint) {
        Some(ch) => ch,
        None => {
            return Err(AppError::InvalidUnicodeCodepoint);
        },
    };
    let mut one: Vec<char> = Vec::new();
    one.push(ch);
    assert(one@ =~= seq![codepoint as char]);
    Ok((Value::Yarn(Yarn::from_chars(one.as_slice())), j - start + 1))
}

fn push_chars(r: &mut Vec<char>, s: &[char])
    ensures
        final(r)@ == old(r)@ + s@,
{
    let mut i: usize = 0;
    while i < s.len()
        invariant
            i <= s@.len(),
            r@ == old(r)@ + s@.take(i as int),
        decreases s@.len() - i,
    {
        r.push(s[i]);
        i = i + 1;
        assert(r@ =~= old(r)@ + s@.take(i as int));
    }
    assert(s@.take(s@.len() as int) =~= s@);
}

/// The text of a YARN literal with its interpolations done (see
/// `interpolate_from`).
pub fn interpolate_yarn(scopes: &Vec<Vec<(Identifier, Value)>>, input: &Yarn) -> (r: Result<Yarn, AppError>)
    ensures
        r matches Ok(y) ==> interpolate_from(scopes_view(scopes@), input@, 0) == Ok::<Seq<char>, AppErrorModel>(y@),
        r matches Err(e) ==> interpolate_from(scopes_view(scopes@), input@, 0) == Err::<Seq<char>, AppErrorModel>(e@),
{
    let ghost sv = scopes_view(scopes@);
    let chars = input.to_chars();
    let ghost cs = chars@;
    let n = chars.len();
    let mut result: Vec<char> = Vec::new();
    let mut i: usize = 0;
    assert(prepend_ok(result@, interpolate_from(sv, cs, 0)) =~= interpolate_from(sv, cs, 0)) by {
        match interpolate_from(sv, cs, 0) {
            Ok(x) => assert(result@ + x =~= x),
            Err(_) => {},
        }
    }
    while i < n
        invariant
            i <= n == chars@.len(),
            cs == chars@,
            cs == input@,
            sv == scopes_view(scopes@),
            interpolate_from(sv, cs, 0) == prepend_ok(result@, interpolate_from(sv, cs, i as int)),
        decreases n - i,
    {
        let ghost before = result@;
        if chars[i] == ':' && i + 1 < n && (chars[i + 1] == '{' || chars[i + 1] == '(') {
            let (v, consumed) = if chars[i + 1] == '{' {
                interpolate_variable(scopes, chars.as_slice(), i + 2)?
            } else {
                interpolate_hex(chars.as_slice(), i + 2)?
            };
            let t = v.text();
            push_chars(&mut result, t.as_slice());
            i = i + 2 + consumed;
            assert(interpolate_from(sv, cs, 0) == prepend_ok(result@, interpolate_from(sv, cs, i as int))) by {
                match interpolate_from(sv, cs, i as int) {
                    Ok(x) => assert(before + (value_text(v@) + x) =~= result@ + x),
                    Err(_) => {},
                }
            }
        } else if chars[i] == ':' && i + 1 < n && chars[i + 1] == '[' {
            return Err(AppError::UnsupportedInterpolation);
        } else {
            let c = chars[i];
            result.push(c);
            i = i + 1;
            assert(interpolate_from(sv, cs, 0) == prepend_ok(result@, interpolate_from(sv, cs, i as int))) by {
                match interpolate_from(sv, cs, i as int) {
                    Ok(x) => assert(before + (seq![c] + x) =~= result@ + x),
                    Err(_) => {},
                }
            }
        }
    }
    assert(result@ + Seq::<char>::empty() =~= result@);
    Ok(Yarn::from_chars(result.as_slice()))
}

/// The name a name expression gives (see `resolve`).
pub fn resolve_identifier_expr(scopes: &Vec<Vec<(Identifier, Value)>>, ident: &IdentifierExpr) -> (r: Result<Identifier, AppError>)
    ensures
        r matches Ok(id) ==> resolve(scopes_view(scopes@), ident@) == Ok::<Seq<char>, AppErrorModel>(id@),
        r matches Err(e) ==> resolve(scopes_view(scopes@), ident@) == Err::<Seq<char>, AppErrorModel>(e@),
    decreases ident, 0int,
{
    match ident {
        IdentifierExpr::Identifier(id) => Ok(id.copy()),
        IdentifierExpr::Srs(expr) => {
            let value = eval_expr(scopes, expr)?;
            let yarn = value.as_yarn()?;
            let chars = yarn.to_chars();
            Identifier::new(string_of(chars.as_slice()))
        },
    }
}

/// The values of the expressions, in order (see `eval_from`).
pub fn eval_exprs(scopes: &Vec<Vec<(Identifier, Value)>>, es: &Vec<Expr>) -> (r: Result<Vec<Value>, AppError>)
    ensures
        r matches Ok(vs) ==> eval_from(scopes_view(scopes@), expr_views(*es), 0) == Ok::<Seq<ValueModel>, AppErrorModel>(value_views(vs@)),
        r matches Err(e) ==> eval_from(scopes_view(scopes@), expr_views(*es), 0) == Err::<Seq<ValueModel>, AppErrorModel>(e@),
    decreases es, 0int,
{
    let ghost sv = scopes_view(scopes@);
    let ghost ev = expr_views(*es);
    proof {
        lemma_expr_views(*es);
    }
    let n = es.len();
    let mut vals: Vec<Value> = Vec::new();
    let mut i: usize = 0;
    assert(prepend_ok(value_views(vals@), eval_from(sv, ev, 0)) =~= eval_from(sv, ev, 0)) by {
        match eval_from(sv, ev, 0) {
            Ok(x) => assert(value_views(vals@) + x =~= x),
            Err(_) => {},
        }
    }
    while i < n
        invariant
            i <= n == es@.len(),
            sv == scopes_view(scopes@),
            ev == expr_views(*es),
            ev.len() == n,
            forall|k: int| 0 <= k < n ==> #[trigger] ev[k] == es@[k]@,
            eval_from(sv, ev, 0) == prepend_ok(value_views(vals@), eval_from(sv, ev, i as int)),
        decreases n - i,
    {
        proof {
            assert(decreases_to!(*es => es@));
            vstd::seq::axiom_seq_index_decreases(es@, i as int);
        }
        let ghost before = value_views(vals@);
        let v = eval_expr(scopes, &es[i])?;
        let ghost vv = v@;
        vals.push(v);
        assert(value_views(vals@) =~= before.push(vv));
        i = i + 1;
        assert(eval_from(sv, ev, 0) == prepend_ok(value_views(vals@), eval_from(sv, ev, i as int))) by {
            match eval_from(sv, ev, i as int) {
                Ok(x) => assert(before + (seq![vv] + x) =~= value_views(vals@) + x),
                Err(_) => {},
            }
        }
    }
    assert(value_views(vals@) + Seq::<ValueModel>::empty() =~= value_views(vals@));
    Ok(vals)
}

/// SMOOSH: the texts of the values of the expressions, joined (see `smoosh_from`).
fn smoosh(scopes: &Vec<Vec<(Identifier, Value)>>, es: &Vec<Expr>) -> (r: Result<Yarn, AppError>)
    ensures
        r matches Ok(y) ==> smoosh_from(scopes_view(scopes@), expr_views(*es), 0) == Ok::<Seq<char>, AppErrorModel>(y@),
        r matches Err(e) ==> smoosh_from(scopes_view(scopes@), expr_views(*es), 0) == Err::<Seq<char>, AppErrorModel>(e@),
    decreases es, 0int,
{
    let ghost sv = scopes_view(scopes@);
    let ghost ev = expr_views(*es);
    proof {
        lemma_expr_views(*es);
    }
    let n = es.len();
    let mut yarn = Yarn::empty();
    let mut i: usize = 0;
    assert(prepend_ok(yarn@, smoosh_from(sv, ev, 0)) =~= smoosh_from(sv, ev, 0)) by {
        match smoosh_from(sv, ev, 0) {
            Ok(x) => assert(yarn@ + x =~= x),
            Err(_) => {},
        }
    }
    while i < n
        invariant
            i <= n == es@.len(),
            sv == scopes_view(scopes@),
            ev == expr_views(*es),
            ev.len() == n,
            forall|k: int| 0 <= k < n ==> #[trigger] ev[k] == es@[k]@,
            smoosh_from(sv, ev, 0) == prepend_ok(yarn@, smoosh_from(sv, ev, i as int)),
        decreases n - i,
    {
        proof {
            assert(decreases_to!(*es => es@));
            vstd::seq::axiom_seq_index_decreases(es@, i as int);
        }
        let ghost before = yarn@;
        let v = eval_expr(scopes, &es[i])?.as_yarn()?;
        let ghost y = v@;
        yarn.concat(v);
        i = i + 1;
        assert(smoosh_from(sv, ev, 0) == prepend_ok(yarn@, smoosh_from(sv, ev, i as int))) by {
            match smoosh_from(sv, ev, i as int) {
                Ok(x) => assert(before + (y + x) =~= yarn@ + x),
                Err(_) => {},
            }
        }
    }
    assert(yarn@ + Seq::<char>::empty() =~= yarn@);
    Ok(yarn)
}

/// The value of an expression in the given scopes (see `eval`).
pub fn eval_expr(scopes: &Vec<Vec<(Identifier, Value)>>, expr: &Expr) -> (r: Result<Value, AppError>)
    ensures
        r matches Ok(v) ==> eval(scopes_view(scopes@), expr@) == Ok::<ValueModel, AppErrorModel>(v@),
        r matches Err(e) ==> eval(scopes_view(scopes@), expr@) == Err::<ValueModel, AppErrorModel>(e@),
    decreases expr, 0int,
{
    match expr {
        Expr::Numbar(n) => Ok(Value::Numbar(n.copy())),
        Expr::Numbr(n) => Ok(Value::Numbr(n.copy())),
        Expr::Troof(b) => Ok(Value::Troof(b.copy())),
        Expr::Noob => Ok(Value::Noob),
        Expr::Yarn(s) => {
            let interpolated_yarn = interpolate_yarn(scopes, s)?;
            Ok(Value::Yarn(interpolated_yarn))
        },
        Expr::Smoosh(args) => {
            let yarn = smoosh(scopes, args)?;
            Ok(Value::Yarn(yarn))
        },
        Expr::Maek(inner, cast_type) => match &**inner {
            Expr::Variable(identifier_expr) => {
                assert((**inner)@ == ExprModel::Variable(identifier_expr@));
                assert(expr@ == ExprModel::Maek(Box::new(ExprModel::Variable(identifier_expr@)), *cast_type));
                if scopes.len() == 0 {
                    return Err(AppError::CouldNotGetCurrentVariableScope);
                }
                let identifier = resolve_identifier_expr(scopes, identifier_expr)?;
                let value = current_or_noob_value(scopes, &identifier);
                cast_variable(&value, *cast_type)
            },
            _ => {
                let value = eval_expr(scopes, inner)?;
                cast_value(&value, *cast_type)
            },
        },
        Expr::Variable(name) => {
            let name = resolve_identifier_expr(scopes, name)?;
            Ok(lookup_variable_value(scopes, &name))
        },
        Expr::Math(math_expr) => {
            let left = eval_expr(scopes, &math_expr.left)?;
            let right = eval_expr(scopes, &math_expr.right)?;
            eval_maths_expr(math_expr, left, right)
        },
        Expr::Bool { op, args } => {
            let values = eval_exprs(scopes, args)?;
            eval_bool_expr(op, values)
        },
        Expr::Comparison(comparison_expr) => {
            let left = eval_expr(scopes, &comparison_expr.left)?;
            let right = eval_expr(scopes, &comparison_expr.right)?;
            eval_comparison_expr(comparison_expr, left, right)
        },
        Expr::Negation(inner) => {
            let inner_value = eval_expr(scopes, inner)?;
            let mut inner_troof = inner_value.as_troof();
            inner_troof.flip_value();
            Ok(Value::Troof(inner_troof))
        },
    }
}

// ---------------------------------------------------------------------------
// Laws of evaluation.
// ---------------------------------------------------------------------------

/// `DIFFRINT x AN y` is `NOT BOTH SAEM x AN y`.
pub proof fn law_diffrint_is_not_both_saem(scopes: Seq<Seq<(Seq<char>, ValueModel)>>, l: ExprModel, r: ExprModel)
    ensures
        eval(scopes, ExprModel::Comparison(ComparisonOp::Diffrint, Box::new(l), Box::new(r))) == eval(
            scopes,
            ExprModel::Negation(Box::new(ExprModel::Comparison(ComparisonOp::BothSaem, Box::new(l), Box::new(r)))),
        ),
{
    let inner = ExprModel::Comparison(ComparisonOp::BothSaem, Box::new(l), Box::new(r));
    assert(eval(scopes, ExprModel::Negation(Box::new(inner))) == match eval(scopes, inner) {
        Err(err) => Err(err),
        Ok(v) => Ok(ValueModel::Troof(!value_as_troof(v))),
    });
}

/// `NOT NOT x` is the truth of `x`.
pub proof fn law_double_negation(scopes: Seq<Seq<(Seq<char>, ValueModel)>>, e: ExprModel)
    ensures
        eval(scopes, ExprModel::Negation(Box::new(ExprModel::Negation(Box::new(e))))) == match eval(scopes, e) {
            Ok(v) => Ok::<ValueModel, AppErrorModel>(ValueModel::Troof(value_as_troof(v))),
            Err(err) => Err(err),
        },
{
    let inner = ExprModel::Negation(Box::new(e));
    assert(eval(scopes, inner) == match eval(scopes, e) {
        Err(err) => Err(err),
        Ok(v) => Ok::<ValueModel, AppErrorModel>(ValueModel::Troof(!value_as_troof(v))),
    });
}

/// A NUMBR cast to NUMBAR and back is the same NUMBR.
pub proof fn law_numbr_survives_numbar_cast(n: i64)
    ensures
        value_cast(ValueModel::Numbr(n), CastTypes::Numbar) == Ok::<ValueModel, AppErrorModel>(ValueModel::Numbar((n as int, 0int))),
        value_cast(ValueModel::Numbar((n as int, 0int)), CastTypes::Numbr) == Ok::<ValueModel, AppErrorModel>(ValueModel::Numbr(n)),
{
    assert(crate::decimal::pow10(0) == 1);
    assert(crate::decimal::div_trunc(n as int, 1) == n);
}

/// A cast to TROOF never fails and gives the truth of the value.
pub proof fn law_troof_cast_is_truth(v: ValueModel)
    ensures
        value_cast(v, CastTypes::Troof) == Ok::<ValueModel, AppErrorModel>(ValueModel::Troof(value_as_troof(v))),
        variable_cast(v, CastTypes::Troof) == Ok::<ValueModel, AppErrorModel>(ValueModel::Troof(value_as_troof(v))),
{
}


/// A YARN without `:` is not changed by interpolation: only `:` starts one.
pub proof fn law_plain_yarn_unchanged(scopes: Seq<Seq<(Seq<char>, ValueModel)>>, cs: Seq<char>, i: int)
    requires
        0 <= i <= cs.len(),
        forall|j: int| 0 <= j < cs.len() ==> cs[j] != ':',
    ensures
        interpolate_from(scopes, cs, i) == Ok::<Seq<char>, AppErrorModel>(cs.skip(i)),
    decreases cs.len() - i,
{
    if i < cs.len() {
        law_plain_yarn_unchanged(scopes, cs, i + 1);
        assert(seq![cs[i]] + cs.skip(i + 1) =~= cs.skip(i));
    } else {
        assert(cs.skip(i) =~= Seq::<char>::empty());
    }
}


/// Whether a result is the error of a missing current scope.
pub open spec fn is_scope_error<T>(r: Result<T, AppErrorModel>) -> bool {
    r matches Err(AppErrorModel::CouldNotGetCurrentVariableScope)
}

proof fn lemma_interpolate_no_scope_error(scopes: Seq<Seq<(Seq<char>, ValueModel)>>, cs: Seq<char>, i: int)
    requires
        scopes.len() > 0,
    ensures
        !is_scope_error(interpolate_from(scopes, cs, i)),
    decreases cs.len() - i,
{
    if 0 <= i < cs.len() {
        if cs[i] == ':' && i + 1 < cs.len() && (cs[i + 1] == '{' || cs[i + 1] == '(') {
            let part = if cs[i + 1] == '{' {
                interpolated_variable(scopes, cs.skip(i + 2))
            } else {
                interpolated_hex(cs.skip(i + 2))
            };
            match part {
                Ok((v, c)) => {
                    if c >= 0 {
                        lemma_interpolate_no_scope_error(scopes, cs, i + 2 + c);
                    }
                },
                Err(_) => {},
            }
        } else if !(cs[i] == ':' && i + 1 < cs.len() && cs[i + 1] == '[') {
            lemma_interpolate_no_scope_error(scopes, cs, i + 1);
        }
    }
}

/// With a current scope, no evaluation fails for the want of one.
pub proof fn law_eval_has_a_scope(scopes: Seq<Seq<(Seq<char>, ValueModel)>>, e: ExprModel)
    requires
        scopes.len() > 0,
    ensures
        !is_scope_error(eval(scopes, e)),
    decreases e, 0int,
{
    match e {
        ExprModel::Yarn(s) => lemma_interpolate_no_scope_error(scopes, s, 0),
        ExprModel::Smoosh(args) => lemma_smoosh_no_scope_error(scopes, args, 0),
        ExprModel::Maek(inner, t) => match *inner {
            ExprModel::Variable(id) => lemma_resolve_no_scope_error(scopes, id),
            _ => law_eval_has_a_scope(scopes, *inner),
        },
        ExprModel::Variable(id) => lemma_resolve_no_scope_error(scopes, id),
        ExprModel::Math(op, l, r) => {
            law_eval_has_a_scope(scopes, *l);
            law_eval_has_a_scope(scopes, *r);
        },
        ExprModel::Bool(op, args) => lemma_eval_from_no_scope_error(scopes, args, 0),
        ExprModel::Comparison(op, l, r) => {
            law_eval_has_a_scope(scopes, *l);
            law_eval_has_a_scope(scopes, *r);
        },
        ExprModel::Negation(inner) => law_eval_has_a_scope(scopes, *inner),
        _ => {},
    }
}

pub proof fn lemma_resolve_no_scope_error(scopes: Seq<Seq<(Seq<char>, ValueModel)>>, id: IdentModel)
    requires
        scopes.len() > 0,
    ensures
        !is_scope_error(resolve(scopes, id)),
    decreases id, 0int,
{
    match id {
        IdentModel::Srs(e) => law_eval_has_a_scope(scopes, *e),
        _ => {},
    }
}

pub proof fn lemma_eval_from_no_scope_error(scopes: Seq<Seq<(Seq<char>, ValueModel)>>, es: Seq<ExprModel>, k: int)
    requires
        scopes.len() > 0,
    ensures
        !is_scope_error(eval_from(scopes, es, k)),
    decreases es, es.len() - k,
{
    if 0 <= k < es.len() {
        law_eval_has_a_scope(scopes, es[k]);
        lemma_eval_from_no_scope_error(scopes, es, k + 1);
    }
}

proof fn lemma_smoosh_no_scope_error(scopes: Seq<Seq<(Seq<char>, ValueModel)>>, es: Seq<ExprModel>, k: int)
    requires
        scopes.len() > 0,
    ensures
        !is_scope_error(smoosh_from(scopes, es, k)),
    decreases es, es.len() - k,
{
    if 0 <= k < es.len() {
        law_eval_has_a_scope(scopes, es[k]);
        lemma_smoosh_no_scope_error(scopes, es, k + 1);
    }
}

/// No name occurs twice in an association list (as in the map it stands for).
pub open spec fn distinct_names<V>(es: Seq<(Seq<char>, V)>) -> bool {
    forall|i: int, j: int| 0 <= i < j < es.len() ==> es[i].0 != es[j].0
}

/// Setting or inserting a name keeps the names distinct: an entry of that name is
/// replaced, and a new one is added only when the name is not there.
pub proof fn law_updates_keep_names_distinct<V>(es: Seq<(Seq<char>, V)>, name: Seq<char>, v: V)
    requires
        distinct_names(es),
    ensures
        distinct_names(set_in(es, name, v)),
        distinct_names(insert_in(es, name, v)),
{
    lemma_find_name_bounds(es, name);
    let i = find_name(es, name);
    if i < es.len() {
        let u = es.update(i, (name, v));
        assert forall|a: int, b: int| 0 <= a < b < u.len() implies u[a].0 != u[b].0 by {
            assert(u[a].0 == es[a].0);
            assert(u[b].0 == es[b].0);
        }
    } else {
        lemma_push_new_name(es, name, v);
    }
}

/// Adding an entry whose name is not there keeps the names distinct.
pub proof fn lemma_push_new_name<V>(es: Seq<(Seq<char>, V)>, name: Seq<char>, v: V)
    requires
        distinct_names(es),
        lookup_in(es, name) is None,
    ensures
        distinct_names(es.push((name, v))),
{
    lemma_find_name_bounds(es, name);
    let u = es.push((name, v));
    assert forall|a: int, b: int| 0 <= a < b < u.len() implies u[a].0 != u[b].0 by {
        assert(u[a] == es[a]);
        if b < es.len() {
            assert(u[b] == es[b]);
        }
    }
}

proof fn lemma_hex_digits_trimmed(h: Seq<char>)
    requires
        h.len() > 0,
        all_hex(h),
    ensures
        trim(h) == h,
{
    assert(hex_value(h[0]) >= 0);
    assert(hex_value(h[h.len() - 1]) >= 0);
    assert(!is_white_space(h[0]));
    assert(trim_start(h) == h);
    assert(!is_white_space(h.last()));
    assert(trim_end(h) == h);
}

/// `:(<hex>)` in a YARN is the character with that code point, its digits read in
/// either case: the text `:(h)` interpolates to that one character when `h` is
/// hexadecimal digits naming a Unicode scalar value, and to the same as `:(H)` for the
/// upper-case form `H` of `h`.
pub proof fn law_hex_interpolation(scopes: Seq<Seq<(Seq<char>, ValueModel)>>, h: Seq<char>)
    requires
        h.len() > 0,
        all_hex(h),
    ensures
        ({
            let cs = seq![':', '('] + h + seq![')'];
            &&& hex_int(h) <= u32::MAX && is_scalar_value(hex_int(h) as u32)
                ==> interpolate_from(scopes, cs, 0) == Ok::<Seq<char>, AppErrorModel>(seq![(hex_int(h) as u32) as char])
            &&& interpolate_from(scopes, cs, 0) == interpolate_from(scopes, seq![':', '('] + upper_text(h) + seq![')'], 0)
        }),
{
    lemma_hex_interpolation_one(scopes, h);
    let u = upper_text(h);
    law_hex_text_either_case(h);
    lemma_hex_int_case_all(h);
    lemma_hex_interpolation_one(scopes, u);
    lemma_hex_digits_trimmed(h);
    lemma_hex_digits_trimmed(u);
}

proof fn lemma_hex_int_case_all(h: Seq<char>)
    requires
        all_hex(h),
    ensures
        all_hex(upper_text(h)),
        upper_text(h).len() == h.len(),
{
    law_hex_text_either_case(h);
    let u = upper_text(h);
    assert forall|i: int| 0 <= i < u.len() implies hex_value(#[trigger] u[i]) >= 0 by {
        law_hex_value_either_case(h[i]);
    }
}

proof fn lemma_hex_interpolation_one(scopes: Seq<Seq<(Seq<char>, ValueModel)>>, h: Seq<char>)
    requires
        h.len() > 0,
        all_hex(h),
    ensures
        ({
            let cs = seq![':', '('] + h + seq![')'];
            interpolate_from(scopes, cs, 0) == match interpolated_hex(cs.skip(2)) {
                Err(e) => Err(e),
                Ok((v, c)) => Ok::<Seq<char>, AppErrorModel>(value_text(v)),
            }
            && cs.skip(2).take(h.len() as int) == h
            && find_char(cs.skip(2), ')') == h.len()
        }),
{
    let cs = seq![':', '('] + h + seq![')'];
    let rest = cs.skip(2);
    assert(rest =~= h + seq![')']);
    assert forall|j: int| 0 <= j < h.len() implies rest[j] != ')' by {
        assert(rest[j] == h[j]);
        assert(hex_value(h[j]) >= 0);
    }
    lemma_find_char_unique(rest, ')', h.len() as int);
    assert(rest.take(h.len() as int) =~= h);
    assert(cs[0] == ':' && cs[1] == '(');
    assert(interpolate_from(scopes, cs, cs.len() as int) == Ok::<Seq<char>, AppErrorModel>(seq![]));
    match interpolated_hex(rest) {
        Err(e) => {},
        Ok((v, c)) => {
            assert(c == h.len() + 1);
            assert(2 + c == cs.len());
            assert(value_text(v) + Seq::<char>::empty() =~= value_text(v));
        },
    }
}

} // verus!
