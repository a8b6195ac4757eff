use lolcoders::expression::{BoolOp, Expr, MathOp};
use lolcoders::keywords::Keyword;
use lolcoders::lexer::tokenize_line;
use lolcoders::parser::{parse_function, parse_line, parse_o_rly_block};
use lolcoders::statement::Statement;
use lolcoders::types::identifier::IdentifierExpr;

fn lines(src: &str) -> Vec<Vec<char>> {
    src.lines().map(|l| l.chars().collect()).collect()
}

fn parse(line: &str, rest: &str) -> Result<(Option<Statement>, usize), String> {
    let ts = tokenize_line(line).map_err(|e| e.message())?;
    let ls = lines(rest);
    parse_line(&ts, &ls, 0).map_err(|e| e.message())
}

fn name_of(id: &IdentifierExpr) -> String {
    match id {
        IdentifierExpr::Identifier(i) => i.as_str().to_string(),
        IdentifierExpr::Srs(_) => "SRS".to_string(),
    }
}

#[test]
fn empty_line_is_no_statement() {
    assert!(matches!(parse("", ""), Ok((None, 0))));
}

#[test]
fn declaration() {
    match parse("I HAS A x ITZ SUM OF 1 AN 2", "").unwrap() {
        (Some(Statement::IHasA(id, Expr::Math(m))), 0) => {
            assert_eq!(name_of(&id), "x");
            assert_eq!(m.op, MathOp::Sum);
        },
        _ => panic!("not a declaration"),
    }
    assert_eq!(parse("I HAS A x ITZ", "").err().unwrap(), "Unexpected EOF");
    assert_eq!(parse("I HAS A x y", "").err().unwrap(), "Invalid syntax: I HAS A x y");
}

#[test]
fn visible_line() {
    match parse("VISIBLE \"a\" AN x!", "").unwrap() {
        (Some(Statement::Visible(es, no_new_line)), 0) => {
            assert_eq!(es.len(), 2);
            assert!(no_new_line);
        },
        _ => panic!("not VISIBLE"),
    }
}

#[test]
fn can_has() {
    assert_eq!(parse("CAN HAS HAI?", "").err().unwrap(), "Invalid identifier expression: HAI");
    assert!(matches!(parse("CAN HAS stdio?", ""), Ok((Some(Statement::CanHasLib(_)), 0))));
    assert_eq!(parse("CAN HAS stdio", "").err().unwrap(), "CAN HAS must end with a question mark");
}

#[test]
fn assignment_and_expression_lines() {
    assert!(matches!(parse("x R 5", ""), Ok((Some(Statement::Rassignment(_, _)), 0))));
    assert!(matches!(parse("BOTH SAEM x AN 5", ""), Ok((Some(Statement::Expr(_)), 0))));
    assert_eq!(parse("x R 5 6", "").err().unwrap(), "Invalid expression: 5 6");
    assert_eq!(parse("x y", "").err().unwrap(), "Line parse error:\tx y");
}

#[test]
fn calls() {
    match parse("r R I IZ f YR 1 AN YR x MKAY", "").unwrap() {
        (Some(Statement::VarRIIzFunc(var, f, args)), 0) => {
            assert_eq!(name_of(&var), "r");
            assert_eq!(f.as_str(), "f");
            assert_eq!(args.len(), 2);
        },
        _ => panic!("not a call"),
    }
    assert!(matches!(parse("r R I IZ f MKAY", ""), Ok((Some(Statement::VarRIIzFunc(_, _, _)), 0))));
    assert_eq!(parse("r R I IZ f YR 1 AN 2 MKAY", "").err().unwrap(), "Incorrect function arguments for f: r R I IZ f YR 1 AN 2 MKAY");
    assert_eq!(parse("r R I IZ f YR 1", "").err().unwrap(), "Function arguments must end with MKAY");
    match parse("I IZ f YR 1 AN 2 MKAY", "").unwrap() {
        (Some(Statement::IIz(f, args)), 0) => {
            assert_eq!(name_of(&f), "f");
            assert_eq!(args.len(), 2);
        },
        _ => panic!("not a call"),
    }
    assert_eq!(parse("I IZ f YR 1", "").err().unwrap(), "Function arguments must end with MKAY");
}

#[test]
fn function_definition_reads_its_body() {
    let rest = "VISIBLE a\nFOUND YR a\nGTFO\nIF U SAY SO\nVISIBLE \"after\"";
    let ts = tokenize_line("HOW IZ I f YR a AN b").unwrap();
    let (stmt, next) = parse_function(&ts, &lines(rest), 0).unwrap();
    assert_eq!(next, 4);
    match stmt {
        Statement::HowIzI(name, params, body) => {
            assert_eq!(name_of(&name), "f");
            assert_eq!(params.iter().map(name_of).collect::<Vec<_>>(), vec!["a", "b"]);
            assert_eq!(body.len(), 3);
            assert!(matches!(body[1], Statement::FoundYr(_)));
            assert!(matches!(body[2], Statement::Gtfo));
        },
        _ => panic!("not a definition"),
    }
    let ts = tokenize_line("HOW IZ I f YR a AN YR b").unwrap();
    assert_eq!(parse_function(&ts, &lines(rest), 0).err().unwrap().message(), "Invalid identifier expression: YR b");
}

#[test]
fn o_rly_block_reads_its_parts() {
    let rest = "YA RLY\nVISIBLE 1\nMEBBE WIN\nVISIBLE 2\nMEBBE FAIL\nNO WAI\nVISIBLE 3\nOIC\nVISIBLE 4";
    let ts = tokenize_line("O RLY?").unwrap();
    let (block, next) = parse_o_rly_block(&ts, &lines(rest), 0).unwrap();
    assert_eq!(next, 8);
    assert_eq!(block.ya_rly_block.len(), 1);
    assert_eq!(block.mebbe_blocks.len(), 2);
    assert_eq!(block.mebbe_blocks[0].statements.len(), 1);
    assert_eq!(block.mebbe_blocks[1].statements.len(), 0);
    assert_eq!(block.no_wai_block.len(), 1);
}

#[test]
fn o_rly_block_errors() {
    let ts = tokenize_line("O RLY?").unwrap();
    let err = |rest: &str| parse_o_rly_block(&ts, &lines(rest), 0).err().unwrap().message();
    assert_eq!(err(""), "O RLY must have YA RLY block");
    assert_eq!(err("VISIBLE 1"), "O RLY must have YA RLY block");
    assert_eq!(err("YA RLY\nVISIBLE 1"), "O RLY must end with OIC");
    assert_eq!(err("YA RLY\nNO WAI\nNO WAI\nOIC"), "O RLY block can only have one NO WAI block");
    assert_eq!(err("YA RLY\nNO WAI\nMEBBE WIN\nOIC"), "NO WAI block must appear last inside O RLY");
    assert_eq!(err("YA RLY\nMEBBE WIN 1\nOIC"), "O RLY parse error");
    let ts = tokenize_line("O RLY").unwrap();
    assert_eq!(parse_o_rly_block(&ts, &lines("YA RLY\nOIC"), 0).err().unwrap().message(), "O RLY parse error");
}

#[test]
fn nested_blocks_take_their_lines() {
    let rest = "YA RLY\nO RLY?\nYA RLY\nVISIBLE 1\nOIC\nOIC\nKTHXBYE";
    match parse("O RLY?", rest).unwrap() {
        (Some(Statement::ORly(block)), 6) => {
            assert!(matches!(block.ya_rly_block[0], Statement::ORly(_)));
        },
        _ => panic!("not a nested block"),
    }
}

#[test]
fn hai_and_kthxbye_lines() {
    assert!(matches!(parse("HAI 1.2", ""), Ok((Some(Statement::Hai(_)), 0))));
    assert!(matches!(parse("KTHXBYE", ""), Ok((Some(Statement::KThxBye), 0))));
    assert_eq!(parse("HAI", "").err().unwrap(), "Must give version number in HAI line");
    assert!(tokenize_line("GIMMEH x").unwrap()[0].is_keyword(Keyword::Gimmeh));
    assert!(matches!(parse("GIMMEH x", ""), Ok((Some(Statement::Gimmeh(_)), 0))));
    assert_eq!(parse("GIMMEH x y", "").err().unwrap(), "Invalid identifier expression: GIMMEH x y");
}

fn expr_of(line: &str) -> Result<(Expr, usize), String> {
    let ts = tokenize_line(line).map_err(|e| e.message())?;
    Expr::parse(&ts).map_err(|e| e.message())
}

#[test]
fn all_of_takes_every_argument_up_to_mkay() {
    match expr_of("ALL OF WIN FAIL MKAY").unwrap() {
        (Expr::Bool { op: BoolOp::All, args }, 5) => {
            assert_eq!(args.len(), 2);
            assert!(matches!(&args[0], Expr::Troof(t) if t.value()));
            assert!(matches!(&args[1], Expr::Troof(t) if !t.value()));
        },
        other => panic!("unexpected parse: {other:?}"),
    }
    match expr_of("ANY OF FAIL AN WIN AN x MKAY").unwrap() {
        (Expr::Bool { op: BoolOp::Any, args }, 8) => assert_eq!(args.len(), 3),
        other => panic!("unexpected parse: {other:?}"),
    }
    match expr_of("ALL OF BOTH OF WIN AN FAIL AN WIN MKAY").unwrap() {
        (Expr::Bool { op: BoolOp::All, args }, 10) => {
            assert_eq!(args.len(), 2);
            assert!(matches!(&args[0], Expr::Bool { op: BoolOp::Both, .. }));
        },
        other => panic!("unexpected parse: {other:?}"),
    }
    assert_eq!(expr_of("ALL OF WIN AN WIN").err().unwrap(), "Troof expression must end with MKAY");
}
