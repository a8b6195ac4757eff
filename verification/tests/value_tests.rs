use lolcoders::decimal::Decimal;
use lolcoders::evaluation::{cast_value, cast_variable, eval_expr, interpolate_yarn};
use lolcoders::expression::{BoolOp, CastTypes, ComparisonExpr, ComparisonOp, Expr, MathOp, MathsExpr};
use lolcoders::text::string_of;
use lolcoders::types::identifier::{Identifier, IdentifierExpr};
use lolcoders::types::primitive::{Numbar, Numbr, Troof, Yarn};
use lolcoders::types::{eval_bool_expr, eval_comparison_expr, eval_maths_expr, Value};

fn numbar_of(s: &str) -> Numbar {
    Numbar::try_from_yarn(Yarn::new(s.to_string())).unwrap()
}

fn dec(s: &str) -> Decimal {
    numbar_of(s).value().copy()
}

fn shown(v: &Value) -> String {
    v.text().into_iter().collect()
}

fn numbr(n: i64) -> Value {
    Value::Numbr(Numbr::new(n))
}

fn numbar(s: &str) -> Value {
    Value::Numbar(numbar_of(s))
}

fn yarn(s: &str) -> Value {
    Value::Yarn(Yarn::new(s.to_string()))
}

fn troof(b: bool) -> Value {
    Value::Troof(Troof::new(b))
}

fn maths(op: MathOp, l: Value, r: Value) -> Result<Value, String> {
    let m = MathsExpr { op, left: Box::new(Expr::Noob), right: Box::new(Expr::Noob) };
    eval_maths_expr(&m, l, r).map_err(|e| e.message())
}

fn same(op: ComparisonOp, l: Value, r: Value) -> bool {
    let c = ComparisonExpr { op, left: Box::new(Expr::Noob), right: Box::new(Expr::Noob) };
    eval_comparison_expr(&c, l, r).unwrap().as_troof().value()
}

#[test]
fn decimal_parse_and_text() {
    assert_eq!(shown(&numbar("1.25")), "1.25");
    assert_eq!(shown(&numbar("-0.5")), "-0.50");
    assert_eq!(shown(&numbar("7")), "7.00");
    assert_eq!(shown(&numbar("1e2")), "100.00");
    assert!(Numbar::try_from_yarn(Yarn::new("abc".to_string())).is_err());
    assert_eq!(dec("1.50").scale(), 2);
    assert!(Decimal::zero().scale() == 0);
}

#[test]
fn decimal_operations() {
    let m = |op: MathOp, a: &str, b: &str| shown(&maths(op, numbar(a), numbar(b)).unwrap());
    assert_eq!(m(MathOp::Sum, "1.5", "2.25"), "3.75");
    assert_eq!(m(MathOp::Diff, "1.5", "2.25"), "-0.75");
    assert_eq!(m(MathOp::Diff, "0", "2.25"), "-2.25");
    assert_eq!(m(MathOp::Produkt, "1.5", "-2"), "-3.00");
    assert_eq!(m(MathOp::Quoshunt, "1", "4"), "0.25");
    assert_eq!(m(MathOp::Mod, "7.5", "2"), "1.50");
    assert_eq!(m(MathOp::Mod, "-7.5", "2"), "-1.50");
    assert_eq!(m(MathOp::Biggr, "1.5", "2.25"), "2.25");
    assert_eq!(m(MathOp::Smallr, "1.5", "2.25"), "1.50");
}

#[test]
fn decimal_comparisons_and_conversions() {
    assert!(same(ComparisonOp::BothSaem, numbar("1.50"), numbar("1.5")));
    assert!(!same(ComparisonOp::BothSaem, numbar("1.5"), numbar("1.51")));
    assert!(same(ComparisonOp::BothSaem, numbar("2.0"), numbr(2)));
    assert!(!same(ComparisonOp::BothSaem, numbar("2.5"), numbr(2)));
    assert!(!numbar("0.000").as_troof().value());
    assert!(numbar("0.001").as_troof().value());
    assert!(!Value::Numbar(Numbar::zero()).as_troof().value());
    let to_numbr = |s: &str| cast_value(&numbar(s), CastTypes::Numbr).map(|v| shown(&v)).map_err(|e| e.message());
    assert_eq!(to_numbr("3.99"), Ok("3".to_string()));
    assert_eq!(to_numbr("-3.99"), Ok("-3".to_string()));
    assert_eq!(to_numbr("99999999999999999999"), Err("Number overflow".to_string()));
    assert!(same(ComparisonOp::BothSaem, numbr(-12), numbar("-12.0")));
    assert!(numbar_of("1.5").copy().equals(&numbar_of("1.50")));
    assert_eq!(shown(&numbar("3.999")), "3.99");
    assert_eq!(shown(&numbar("-3.999")), "-3.99");
}

#[test]
fn numbr_arithmetic() {
    assert_eq!(shown(&maths(MathOp::Sum, numbr(2), numbr(3)).unwrap()), "5");
    assert_eq!(shown(&maths(MathOp::Diff, numbr(2), numbr(3)).unwrap()), "-1");
    assert_eq!(shown(&maths(MathOp::Produkt, numbr(-4), numbr(3)).unwrap()), "-12");
    assert_eq!(shown(&maths(MathOp::Quoshunt, numbr(-7), numbr(2)).unwrap()), "-3.50");
    assert_eq!(shown(&maths(MathOp::Mod, numbr(-7), numbr(2)).unwrap()), "-1");
    assert_eq!(shown(&maths(MathOp::Biggr, numbr(-7), numbr(2)).unwrap()), "2");
    assert_eq!(shown(&maths(MathOp::Smallr, numbr(-7), numbr(2)).unwrap()), "-7");
}

#[test]
fn arithmetic_errors() {
    assert_eq!(maths(MathOp::Quoshunt, numbr(1), numbr(0)).err().unwrap(), "Division by zero");
    assert_eq!(maths(MathOp::Mod, numbr(1), numbr(0)).err().unwrap(), "Division by zero");
    assert_eq!(maths(MathOp::Quoshunt, numbar("1.5"), numbar("0.0")).err().unwrap(), "Division by zero");
    assert_eq!(maths(MathOp::Produkt, numbr(i64::MAX), numbr(2)).err().unwrap(), "Number overflow");
    assert_eq!(maths(MathOp::Mod, numbr(i64::MIN), numbr(-1)).err().unwrap(), "Number overflow");
    assert_eq!(maths(MathOp::Sum, Value::Noob, numbr(1)).err().unwrap(), "Cannot perform maths expressions with NOOB");
}

#[test]
fn mixed_arithmetic() {
    assert_eq!(shown(&maths(MathOp::Sum, numbr(1), numbar("0.5")).unwrap()), "1.50");
    assert_eq!(shown(&maths(MathOp::Diff, numbar("0.5"), numbr(1)).unwrap()), "-0.50");
    assert_eq!(shown(&maths(MathOp::Sum, yarn("1.25"), troof(true)).unwrap()), "2.25");
    assert_eq!(shown(&maths(MathOp::Biggr, numbar("2.5"), numbr(2)).unwrap()), "2.50");
    assert_eq!(shown(&maths(MathOp::Mod, numbar("7.5"), numbr(2)).unwrap()), "1.50");
}

#[test]
fn comparisons() {
    assert!(same(ComparisonOp::BothSaem, numbr(1), numbar("1.0")));
    assert!(same(ComparisonOp::BothSaem, numbar("1.0"), numbr(1)));
    assert!(!same(ComparisonOp::BothSaem, numbr(1), yarn("1")));
    assert!(same(ComparisonOp::BothSaem, yarn("a"), yarn("a")));
    assert!(!same(ComparisonOp::BothSaem, Value::Noob, Value::Noob));
    assert!(same(ComparisonOp::Diffrint, Value::Noob, Value::Noob));
    assert!(same(ComparisonOp::Diffrint, troof(true), troof(false)));
}

#[test]
fn strict_equality() {
    assert!(Value::Noob.strict_eq(&Value::Noob));
    assert!(!numbr(1).strict_eq(&numbar("1.0")));
    assert!(numbar("1.0").strict_eq(&numbar("1.00")));
}

#[test]
fn boolean_operators() {
    let b = |op: BoolOp, vs: Vec<Value>| eval_bool_expr(&op, vs).map(|v| v.as_troof().value()).map_err(|e| e.message());
    assert_eq!(b(BoolOp::Both, vec![troof(true), numbr(3)]), Ok(true));
    assert_eq!(b(BoolOp::Both, vec![troof(true), yarn("")]), Ok(false));
    assert_eq!(b(BoolOp::Either, vec![Value::Noob, numbar("0.5")]), Ok(true));
    assert_eq!(b(BoolOp::Won, vec![troof(true), troof(true)]), Ok(false));
    assert_eq!(b(BoolOp::Won, vec![troof(false), troof(true)]), Ok(true));
    assert_eq!(b(BoolOp::Not, vec![troof(false)]), Ok(true));
    assert_eq!(b(BoolOp::All, vec![troof(true), troof(true), numbr(0)]), Ok(false));
    assert_eq!(b(BoolOp::Any, vec![troof(true)]), Ok(true));
    assert_eq!(b(BoolOp::Any, vec![troof(true), troof(false)]), Ok(true));
    assert_eq!(b(BoolOp::Any, vec![troof(false), troof(true)]), Ok(true));
    assert_eq!(b(BoolOp::Any, vec![troof(false), numbr(0), yarn("")]), Ok(false));
    assert_eq!(b(BoolOp::All, vec![troof(true), numbr(2), yarn("a")]), Ok(true));
    assert_eq!(b(BoolOp::Both, vec![troof(true)]).err().unwrap(), "Troof expression has invalid number of arguments");
    assert_eq!(b(BoolOp::Any, vec![]).err().unwrap(), "Troof expression has invalid number of arguments");
}

#[test]
fn quotient_whose_scale_would_overflow() {
    assert_eq!(maths(MathOp::Quoshunt, yarn("1e-9223372036854775807"), numbr(3)).err().unwrap(), "Number overflow");
    assert_eq!(maths(MathOp::Quoshunt, numbar("1e-9223372036854775807"), numbr(3)).err().unwrap(), "Number overflow");
    assert_eq!(shown(&maths(MathOp::Quoshunt, numbar("1.5"), numbr(3)).unwrap()), "0.50");
}

#[test]
fn scales_too_far_apart_to_align() {
    let huge = "1e9223372036854775807";
    let tiny = "1e-9223372036854775807";
    assert_eq!(maths(MathOp::Sum, numbar(huge), numbar(tiny)).err().unwrap(), "Number overflow");
    assert_eq!(maths(MathOp::Diff, numbar(tiny), numbar(huge)).err().unwrap(), "Number overflow");
    assert_eq!(maths(MathOp::Mod, numbar(huge), numbar(tiny)).err().unwrap(), "Number overflow");
    assert!(maths(MathOp::Diff, numbar("0e-9223372036854775807"), numbar(huge)).is_ok());
    assert!(maths(MathOp::Sum, numbar(tiny), numbar(tiny)).is_ok());
}

#[test]
fn numbars_that_cannot_reach_scale_zero() {
    let e = Numbar::try_from_yarn(Yarn::new("1e9223372036854775808".to_string())).err().unwrap();
    assert_eq!(e.message(), "Number overflow");
    assert!(Numbar::try_from_yarn(Yarn::new("0e9223372036854775808".to_string())).is_ok());
    assert_eq!(maths(MathOp::Sum, yarn("1e9223372036854775808"), numbr(1)).err().unwrap(), "Number overflow");
    let half = "1e4611686018427387904";
    assert_eq!(maths(MathOp::Produkt, numbar(half), numbar(half)).err().unwrap(), "Number overflow");
    assert_eq!(
        maths(MathOp::Quoshunt, numbar("1e100"), numbar("1e-9223372036854775708")).err().unwrap(),
        "Number overflow"
    );
    assert!(yarn("1e9223372036854775808").as_troof().value());
}

#[test]
fn truth_of_values() {
    assert!(!Value::Noob.as_troof().value());
    assert!(!yarn("").as_troof().value());
    assert!(yarn("abc").as_troof().value());
    assert!(!yarn("0").as_troof().value());
    assert!(!yarn("0.0").as_troof().value());
    assert!(yarn("0.5").as_troof().value());
    assert!(!numbar("0.00").as_troof().value());
    assert!(numbr(-1).as_troof().value());
}

#[test]
fn yarn_conversions() {
    assert_eq!(numbr(-5).as_yarn().unwrap().as_str(), "-5");
    assert_eq!(numbar("2.999").as_yarn().unwrap().as_str(), "2.99");
    assert_eq!(troof(true).as_yarn().err().unwrap().message(), "Cannot VISIBLE a TROOF");
    assert_eq!(Value::Noob.as_yarn().err().unwrap().message(), "Cannot VISIBLE a NOOB");
    assert_eq!(shown(&troof(false)), "FAIL");
    assert_eq!(shown(&Value::Noob), "NOOB");
}

#[test]
fn numbers_from_yarns() {
    assert_eq!(Numbr::try_from_yarn(Yarn::new("42".to_string())).unwrap().value(), 42);
    assert_eq!(Numbr::try_from_yarn(Yarn::new("4.2".to_string())).err().unwrap().message(), "YARN \"4.2\" is not a NUMBR");
    assert!(Numbar::try_from_yarn(Yarn::new("4.2".to_string())).unwrap().equals(&Numbar::new(dec("4.20"))));
    assert_eq!(Numbar::try_from_yarn(Yarn::new("x".to_string())).err().unwrap().message(), "YARN \"x\" is not a NUMBAR");
}

#[test]
fn casts() {
    let c = |v: Value, t: CastTypes| cast_value(&v, t).map(|r| shown(&r)).map_err(|e| e.message());
    assert_eq!(c(numbar("3.7"), CastTypes::Numbr), Ok("3".to_string()));
    assert_eq!(c(numbar("-3.7"), CastTypes::Numbr), Ok("-3".to_string()));
    assert_eq!(c(yarn("12"), CastTypes::Numbr), Ok("12".to_string()));
    assert_eq!(c(yarn("abc"), CastTypes::Numbr), Ok("0".to_string()));
    assert_eq!(c(troof(true), CastTypes::Numbar), Ok("1.00".to_string()));
    assert_eq!(c(numbr(5), CastTypes::Yarn), Ok("5".to_string()));
    assert_eq!(c(numbr(5), CastTypes::Troof), Ok("WIN".to_string()));
    assert_eq!(c(numbr(5), CastTypes::Noob), Ok("NOOB".to_string()));
    assert_eq!(c(Value::Noob, CastTypes::Yarn), Err("Cannot VISIBLE a NOOB".to_string()));
    assert_eq!(c(numbar("1e30"), CastTypes::Numbr), Err("Number overflow".to_string()));
    let v = cast_variable(&Value::Noob, CastTypes::Numbar).unwrap();
    assert_eq!(shown(&v), "0.00");
    let v = cast_variable(&Value::Noob, CastTypes::Yarn).unwrap();
    assert_eq!(shown(&v), "");
}

#[test]
fn numbr_survives_a_numbar_cast() {
    for n in [0i64, 7, -12, i64::MAX, i64::MIN] {
        let d = cast_value(&numbr(n), CastTypes::Numbar).unwrap();
        let back = cast_value(&d, CastTypes::Numbr).unwrap();
        assert!(back.strict_eq(&numbr(n)));
    }
}

fn scopes_with(name: &str, v: Value) -> Vec<Vec<(Identifier, Value)>> {
    vec![vec![(Identifier::new(name.to_string()).unwrap(), v)]]
}

#[test]
fn evaluating_expressions() {
    let scopes = scopes_with("x", numbr(4));
    let x = || Expr::Variable(IdentifierExpr::Identifier(Identifier::new("x".to_string()).unwrap()));
    let smoosh = Expr::Smoosh(vec![Expr::Yarn(Yarn::new("x=".to_string())), x(), Expr::Numbar(Numbar::new(dec("0.5")))]);
    assert_eq!(shown(&eval_expr(&scopes, &smoosh).unwrap()), "x=40.50");
    let maek = Expr::Maek(Box::new(x()), CastTypes::Numbar);
    assert_eq!(shown(&eval_expr(&scopes, &maek).unwrap()), "4.00");
    let missing = Expr::Variable(IdentifierExpr::Identifier(Identifier::new("y".to_string()).unwrap()));
    assert_eq!(shown(&eval_expr(&scopes, &missing).unwrap()), "NOOB");
    let maek_missing = Expr::Maek(Box::new(missing), CastTypes::Numbr);
    assert_eq!(shown(&eval_expr(&scopes, &maek_missing).unwrap()), "0");
    let not_not = Expr::Negation(Box::new(Expr::Negation(Box::new(x()))));
    assert_eq!(shown(&eval_expr(&scopes, &not_not).unwrap()), "WIN");
    let srs = Expr::Variable(IdentifierExpr::Srs(Box::new(Expr::Yarn(Yarn::new("x".to_string())))));
    assert_eq!(shown(&eval_expr(&scopes, &srs).unwrap()), "4");
    let bad_srs = Expr::Variable(IdentifierExpr::Srs(Box::new(Expr::Yarn(Yarn::new("not valid".to_string())))));
    assert_eq!(eval_expr(&scopes, &bad_srs).err().unwrap().message(), "Invalid variable identifier: not valid");
}

#[test]
fn diffrint_is_not_both_saem() {
    let scopes = scopes_with("x", numbr(4));
    for (a, b) in [(numbr(4), numbar("4.0")), (yarn("a"), yarn("b")), (Value::Noob, Value::Noob)] {
        let d = Expr::Comparison(ComparisonExpr { op: ComparisonOp::Diffrint, left: Box::new(lit(&a)), right: Box::new(lit(&b)) });
        let n = Expr::Negation(Box::new(Expr::Comparison(ComparisonExpr {
            op: ComparisonOp::BothSaem,
            left: Box::new(lit(&a)),
            right: Box::new(lit(&b)),
        })));
        assert_eq!(shown(&eval_expr(&scopes, &d).unwrap()), shown(&eval_expr(&scopes, &n).unwrap()));
    }
}

fn lit(v: &Value) -> Expr {
    match v {
        Value::Numbr(n) => Expr::Numbr(n.copy()),
        Value::Numbar(n) => Expr::Numbar(n.copy()),
        Value::Yarn(y) => Expr::Yarn(y.copy()),
        Value::Troof(t) => Expr::Troof(t.copy()),
        Value::Noob => Expr::Noob,
    }
}

#[test]
fn interpolation_reads_the_current_scope_only() {
    let mut scopes = scopes_with("x", numbr(4));
    scopes.push(vec![]);
    let y = interpolate_yarn(&scopes, &Yarn::new("[:{ x }]".to_string())).unwrap();
    assert_eq!(y.as_str(), "[NOOB]");
    let y = interpolate_yarn(&scopes_with("x", numbr(4)), &Yarn::new("[:{ x }] :( 2764 )".to_string())).unwrap();
    assert_eq!(y.as_str(), "[4] \u{2764}");
}

#[test]
fn wrappers_of_std() {
    assert_eq!(string_of(&['a', 'b', '\u{e9}']), "ab\u{e9}");
    let scopes = scopes_with("x", numbr(4));
    let y = |s: &str| interpolate_yarn(&scopes, &Yarn::new(s.to_string())).map(|y| y.as_str().to_string()).map_err(|e| e.message());
    assert_eq!(y(":(41)"), Ok("A".to_string()));
    assert_eq!(y(":(D800)"), Err("Invalid Unicode codepoint".to_string()));
    assert_eq!(y(":(110000)"), Err("Invalid Unicode codepoint".to_string()));
}

#[test]
fn identifiers() {
    assert!(Identifier::new("x1_y".to_string()).is_ok());
    assert_eq!(Identifier::new("1x".to_string()).err().unwrap().message(), "Invalid variable identifier: 1x");
    assert_eq!(Identifier::new("HAI".to_string()).err().unwrap().message(), "Invalid variable identifier: HAI");
    assert_eq!(Identifier::new(String::new()).err().unwrap().message(), "Invalid variable identifier: ");
}

#[test]
fn troof_flip() {
    let mut t = Troof::new(true);
    t.flip_value();
    assert!(!t.value());
    t.flip_value();
    assert!(t.value());
}

#[test]
fn yarn_concat_and_literals() {
    let mut y = Yarn::new("ab".to_string());
    y.concat(Yarn::new("cd".to_string()));
    assert_eq!(y.as_str(), "abcd");
    assert_eq!(Yarn::from_literal("\"x:)y:>z:o::q:\"\"".to_string()).as_str(), "x\ny\tz\u{7}:q\"");
    assert_eq!(Yarn::from_literal("plain".to_string()).as_str(), "plain");
}

#[test]
fn text_without_colons_is_left_alone() {
    let scopes = scopes_with("x", numbr(4));
    let y = interpolate_yarn(&scopes, &Yarn::new("no {x} here (41)".to_string())).unwrap();
    assert_eq!(y.as_str(), "no {x} here (41)");
    assert_eq!(Yarn::from_literal("\"plain {text}\"".to_string()).as_str(), "plain {text}");
}
