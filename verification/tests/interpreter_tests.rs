use lolcoders::interpreter::{Action, Interpreter};

/// Runs a program to its end, handing over the given input lines in order; gives
/// the output and the message of the error that stopped it, if any.
fn run_with_input(source: &str, input: &[&str]) -> (String, Option<String>) {
    let mut interp = Interpreter::new();
    if let Err(e) = interp.execute_source(source.to_string()) {
        return (String::new(), Some(e.message()));
    }
    let mut out = String::new();
    let mut next_input = 0;
    for _ in 0..100_000 {
        match interp.step() {
            Action::Continue => {},
            Action::Print(s, newline) => {
                out.push_str(&s);
                if newline {
                    out.push('\n');
                }
            },
            Action::ReadLine => {
                let line = input.get(next_input).copied().unwrap_or("");
                next_input += 1;
                interp.provide_input(line.to_string());
            },
            Action::Done => return (out, None),
            Action::Error(e) => return (out, Some(e.message())),
        }
    }
    panic!("the program did not finish");
}

fn run(source: &str) -> (String, Option<String>) {
    run_with_input(source, &[])
}

fn output_of(source: &str) -> String {
    let (out, err) = run(source);
    assert_eq!(err, None, "unexpected error; output so far: {out:?}");
    out
}

fn error_of(source: &str) -> String {
    let (_, err) = run(source);
    err.expect("an error was expected")
}

#[test]
fn hello_world() {
    assert_eq!(output_of("HAI 1.2\nVISIBLE \"HAI WORLD!\"\nKTHXBYE\n"), "HAI WORLD!\n");
}

#[test]
fn visible_without_newline() {
    assert_eq!(output_of("HAI 1.2\nVISIBLE \"A\"!\nVISIBLE \"B\"\nKTHXBYE"), "AB\n");
}

#[test]
fn visible_joins_its_arguments() {
    assert_eq!(output_of("HAI 1.2\nVISIBLE \"x=\" AN 5 \" y=\" 2.5\nKTHXBYE"), "x=5 y=2.50\n");
}

#[test]
fn empty_program_is_accepted() {
    assert_eq!(output_of(""), "");
}

#[test]
fn variables_and_assignment() {
    let src = "HAI 1.2\nI HAS A x ITZ 5\nVISIBLE x\nx R SUM OF x AN 1\nVISIBLE x\nKTHXBYE";
    assert_eq!(output_of(src), "5\n6\n");
}

#[test]
fn typed_declarations_have_defaults() {
    let src = "HAI 1.2\nI HAS A n ITZ A NUMBR\nI HAS A d ITZ A NUMBAR\nI HAS A y ITZ A YARN\nVISIBLE n AN \" \" AN d AN \"[\" AN y AN \"]\"\nKTHXBYE";
    assert_eq!(output_of(src), "0 0.00[]\n");
}

#[test]
fn integer_arithmetic() {
    let src = "HAI 1.2\nVISIBLE SUM OF 2 AN 3\nVISIBLE DIFF OF 10 AN 4\nVISIBLE PRODUKT OF 3 AN 4\nVISIBLE QUOSHUNT OF 7 AN 2\nVISIBLE MOD OF 7 AN 3\nVISIBLE BIGGR OF 3 AN 9\nVISIBLE SMALLR OF 3 AN 9\nKTHXBYE";
    assert_eq!(output_of(src), "5\n6\n12\n3.50\n1\n9\n3\n");
}

#[test]
fn decimal_arithmetic() {
    let src = "HAI 1.2\nVISIBLE SUM OF 1.5 AN 2\nVISIBLE QUOSHUNT OF 1.0 AN 4\nVISIBLE PRODUKT OF 2.5 AN 2.5\nKTHXBYE";
    assert_eq!(output_of(src), "3.50\n0.25\n6.25\n");
}

#[test]
fn numbar_is_shown_truncated_to_two_places() {
    assert_eq!(output_of("HAI 1.2\nVISIBLE 3.14159\nVISIBLE -2.999\nKTHXBYE"), "3.14\n-2.99\n");
}

#[test]
fn yarn_numbers_take_part_in_arithmetic() {
    assert_eq!(output_of("HAI 1.2\nVISIBLE SUM OF \"2\" AN 3\nKTHXBYE"), "5\n");
}

#[test]
fn division_by_zero_is_an_error() {
    assert_eq!(error_of("HAI 1.2\nVISIBLE QUOSHUNT OF 7 AN 0\nKTHXBYE"), "Division by zero");
}

#[test]
fn integer_overflow_is_an_error() {
    assert_eq!(error_of("HAI 1.2\nVISIBLE SUM OF 9223372036854775807 AN 1\nKTHXBYE"), "Number overflow");
}

#[test]
fn maths_on_noob_is_an_error() {
    assert_eq!(error_of("HAI 1.2\nI HAS A x\nVISIBLE SUM OF x AN 1\nKTHXBYE"), "Cannot perform maths expressions with NOOB");
}

#[test]
fn yarn_that_is_no_number_is_an_error() {
    assert_eq!(error_of("HAI 1.2\nVISIBLE SUM OF \"abc\" AN 1\nKTHXBYE"), "YARN \"abc\" is not a number");
}

#[test]
fn interpolation_of_a_variable() {
    let src = "HAI 1.2\nI HAS A name ITZ \"Bob\"\nVISIBLE \"HI :{name}!\"\nKTHXBYE";
    assert_eq!(output_of(src), "HI Bob!\n");
}

#[test]
fn interpolation_of_a_missing_variable_is_noob() {
    assert_eq!(output_of("HAI 1.2\nVISIBLE \"[:{nobody}]\"\nKTHXBYE"), "[NOOB]\n");
}

#[test]
fn interpolation_of_a_code_point() {
    assert_eq!(output_of("HAI 1.2\nVISIBLE \":(41):(1F600)\"\nKTHXBYE"), "A\u{1F600}\n");
}

#[test]
fn interpolation_errors() {
    assert_eq!(error_of("HAI 1.2\nVISIBLE \":{name\"\nKTHXBYE"), "Unclosed Interpolation");
    assert_eq!(error_of("HAI 1.2\nVISIBLE \":(D800)\"\nKTHXBYE"), "Invalid Unicode codepoint");
    assert_eq!(error_of("HAI 1.2\nVISIBLE \":(zz)\"\nKTHXBYE"), "Invalid Unicode codepoint");
    assert_eq!(error_of("HAI 1.2\nVISIBLE \":[SPACE]\"\nKTHXBYE"), "Interpolation by character name is not supported");
    assert_eq!(error_of("HAI 1.2\nVISIBLE \":{1x}\"\nKTHXBYE"), "Invalid variable identifier: 1x");
}

#[test]
fn yarn_escapes() {
    assert_eq!(output_of("HAI 1.2\nVISIBLE \"a:)b:>c::d:\"e\"\nKTHXBYE"), "a\nb\tc:d\"e\n");
}

#[test]
fn o_rly_takes_the_right_branch() {
    let src = "HAI 1.2
I HAS A x ITZ 2
BOTH SAEM x AN 1
O RLY?
YA RLY
VISIBLE \"one\"
MEBBE BOTH SAEM x AN 2
VISIBLE \"two\"
NO WAI
VISIBLE \"other\"
OIC
BOTH SAEM x AN 2
O RLY?
YA RLY
VISIBLE \"yes\"
OIC
DIFFRINT x AN 2
O RLY?
YA RLY
VISIBLE \"never\"
NO WAI
VISIBLE \"no\"
OIC
KTHXBYE";
    assert_eq!(output_of(src), "two\nyes\nno\n");
}

#[test]
fn o_rly_without_it_is_an_error() {
    assert_eq!(error_of("HAI 1.2\nO RLY?\nYA RLY\nVISIBLE \"x\"\nOIC\nKTHXBYE"), "No value in IT");
}

#[test]
fn function_with_found_yr() {
    let src = "HAI 1.2
HOW IZ I add YR a AN b
FOUND YR SUM OF a AN b
IF U SAY SO
I HAS A r
r R I IZ add YR 2 AN YR 3 MKAY
VISIBLE r
KTHXBYE";
    assert_eq!(output_of(src), "5\n");
}

#[test]
fn function_with_gtfo_gives_noob() {
    let src = "HAI 1.2
HOW IZ I nothing
GTFO
IF U SAY SO
I HAS A r ITZ 1
r R I IZ nothing MKAY
VISIBLE r
KTHXBYE";
    assert_eq!(error_of(src), "Cannot VISIBLE a NOOB");
}

#[test]
fn function_without_return_leaves_the_variable() {
    let src = "HAI 1.2
HOW IZ I quiet YR x
VISIBLE \"in :{x}\"
IF U SAY SO
I HAS A r ITZ 7
r R I IZ quiet YR 1 MKAY
VISIBLE r
KTHXBYE";
    assert_eq!(output_of(src), "in 1\n7\n");
}

#[test]
fn i_iz_call_runs_the_body() {
    let src = "HAI 1.2
HOW IZ I greet YR who
VISIBLE \"HI :{who}\"
IF U SAY SO
I IZ greet YR \"Ann\" MKAY
KTHXBYE";
    assert_eq!(output_of(src), "HI Ann\n");
}

#[test]
fn function_scope_sees_outer_variables_but_not_its_own_after_return() {
    let src = "HAI 1.2
I HAS A g ITZ 10
HOW IZ I f YR a
I HAS A local ITZ SUM OF a AN g
FOUND YR local
IF U SAY SO
I HAS A r
r R I IZ f YR 5 MKAY
VISIBLE r
VISIBLE \"[:{local}]\"
KTHXBYE";
    assert_eq!(output_of(src), "15\n[NOOB]\n");
}

#[test]
fn recursion_through_o_rly() {
    let src = "HAI 1.2
HOW IZ I fact YR n
I HAS A r ITZ 1
BOTH SAEM n AN 0
O RLY?
NO WAI
I HAS A m ITZ DIFF OF n AN 1
r R I IZ fact YR m MKAY
r R PRODUKT OF r AN n
OIC
FOUND YR r
IF U SAY SO
I HAS A out
out R I IZ fact YR 5 MKAY
VISIBLE out
KTHXBYE";
    assert_eq!(error_of(src), "O RLY must have YA RLY block");
    let src_ok = "HAI 1.2
HOW IZ I fact YR n
I HAS A r ITZ 1
BOTH SAEM n AN 0
O RLY?
YA RLY
r R 1
NO WAI
I HAS A m ITZ DIFF OF n AN 1
r R I IZ fact YR m MKAY
r R PRODUKT OF r AN n
OIC
FOUND YR r
IF U SAY SO
I HAS A out
out R I IZ fact YR 5 MKAY
VISIBLE out
KTHXBYE";
    assert_eq!(output_of(src_ok), "120\n");
}

#[test]
fn function_errors() {
    assert_eq!(error_of("HAI 1.2\nI IZ nope MKAY\nKTHXBYE"), "Function nope does not exist");
    let src = "HAI 1.2\nHOW IZ I f YR a\nFOUND YR a\nIF U SAY SO\nI IZ f YR 1 AN 2 MKAY\nKTHXBYE";
    assert_eq!(error_of(src), "Not enough arguments to call function");
    assert_eq!(error_of("HAI 1.2\nHOW IZ I f\nVISIBLE \"x\"\nKTHXBYE"), "Function must end IF U SAY SO");
    let src = "HAI 1.2\nHOW IZ I f\nFOUND YR 1\nIF U SAY SO\nr R I IZ f MKAY\nKTHXBYE";
    assert_eq!(error_of(src), "Variable r does not exist in current scope");
}

#[test]
fn gimmeh_reads_a_line() {
    let src = "HAI 1.2\nI HAS A name\nGIMMEH name\nVISIBLE \"HI :{name}\"\nKTHXBYE";
    let (out, err) = run_with_input(src, &["Zed\r\n"]);
    assert_eq!(err, None);
    assert_eq!(out, "HI Zed\n");
}

#[test]
fn gimmeh_needs_a_declared_variable() {
    let (_, err) = run_with_input("HAI 1.2\nGIMMEH name\nKTHXBYE", &["x"]);
    assert_eq!(err.as_deref(), Some("Variable name does not exist in current scope"));
}

#[test]
fn structure_errors() {
    assert_eq!(error_of("VISIBLE \"x\"\nKTHXBYE"), "Must start with HAI");
    assert_eq!(error_of("HAI 1.2\nVISIBLE \"x\""), "Must end with KTHXBYE");
    assert_eq!(error_of("HAI 1.2\nHAI 1.2\nKTHXBYE"), "Must start with HAI");
    assert_eq!(error_of("HAI 1.2\nKTHXBYE\nKTHXBYE"), "Must end with KTHXBYE");
    assert_eq!(error_of("HAI\nKTHXBYE"), "Must give version number in HAI line");
}

#[test]
fn variable_errors() {
    assert_eq!(error_of("HAI 1.2\nI HAS A x\nI HAS A x\nKTHXBYE"), "Cannot redeclare variable: x ");
    assert_eq!(error_of("HAI 1.2\ny R 5\nKTHXBYE"), "Variable y does not exist in current scope");
    assert_eq!(error_of("HAI 1.2\nI HAS A x\nVISIBLE x\nKTHXBYE"), "Cannot VISIBLE a NOOB");
    assert_eq!(error_of("HAI 1.2\nVISIBLE WIN\nKTHXBYE"), "Cannot VISIBLE a TROOF");
    assert_eq!(error_of("HAI 1.2\nVISIBLE\nKTHXBYE"), "VISIBLE must have an arg");
}

#[test]
fn comments_are_ignored() {
    let src = "HAI 1.2
BTW a comment
OBTW
several lines
of comment
TLDR
VISIBLE \"ok\" BTW trailing comment
VISIBLE \"BTW inside a yarn\"
KTHXBYE";
    assert_eq!(output_of(src), "ok\nBTW inside a yarn\n");
}

#[test]
fn comment_errors() {
    assert_eq!(error_of("HAI 1.2\nVISIBLE \"x\" OBTW\nTLDR\nKTHXBYE"), "OBTW must start a line");
    assert_eq!(error_of("HAI 1.2\nTLDR\nKTHXBYE"), "TLDR must be after OBTW");
}

#[test]
fn commas_and_continuations() {
    let src = "HAI 1.2\nI HAS A x ITZ 1, VISIBLE x\nVISIBLE \"a\" ...\n\"b\"\nKTHXBYE";
    assert_eq!(output_of(src), "1\nab\n");
}

#[test]
fn srs_names_a_variable_by_its_value() {
    let src = "HAI 1.2\nI HAS A name ITZ \"target\"\nI HAS A SRS name ITZ 42\nVISIBLE target\nKTHXBYE";
    assert_eq!(output_of(src), "42\n");
}

#[test]
fn boolean_operators_in_programs() {
    let src = "HAI 1.2
BOTH OF WIN AN FAIL
O RLY?
YA RLY
VISIBLE \"both\"
OIC
EITHER OF WIN AN FAIL
O RLY?
YA RLY
VISIBLE \"either\"
OIC
WON OF WIN AN WIN
O RLY?
YA RLY
VISIBLE \"won\"
NO WAI
VISIBLE \"not won\"
OIC
NOT FAIL
O RLY?
YA RLY
VISIBLE \"not\"
OIC
KTHXBYE";
    assert_eq!(output_of(src), "either\nnot won\nnot\n");
}

#[test]
fn after_an_error_the_program_is_over() {
    let mut interp = Interpreter::new();
    interp.execute_source("HAI 1.2\nVISIBLE QUOSHUNT OF 1 AN 0\nVISIBLE \"after\"\nKTHXBYE".to_string()).unwrap();
    let mut saw_error = false;
    for _ in 0..10 {
        match interp.step() {
            Action::Error(e) => {
                assert_eq!(e.message(), "Division by zero");
                saw_error = true;
                break;
            },
            Action::Print(..) => panic!("nothing is printed before the error"),
            _ => {},
        }
    }
    assert!(saw_error);
    assert!(matches!(interp.step(), Action::Done));
    assert!(matches!(interp.step(), Action::Done));
}

#[test]
fn a_step_waits_for_input() {
    let mut interp = Interpreter::new();
    interp.execute_source("HAI 1.2\nI HAS A x\nGIMMEH x\nVISIBLE x\nKTHXBYE".to_string()).unwrap();
    let mut asked = false;
    for _ in 0..10 {
        if let Action::ReadLine = interp.step() {
            asked = true;
            break;
        }
    }
    assert!(asked);
    assert!(matches!(interp.step(), Action::ReadLine));
    assert!(matches!(interp.step(), Action::ReadLine));
    interp.provide_input("typed\n".to_string());
    let mut printed = None;
    for _ in 0..10 {
        if let Action::Print(s, newline) = interp.step() {
            printed = Some((s, newline));
            break;
        }
    }
    assert_eq!(printed, Some(("typed".to_string(), true)));
}

#[test]
fn a_program_is_not_loaded_when_it_does_not_parse() {
    let mut interp = Interpreter::new();
    assert!(interp.execute_source("HAI 1.2\nVISIBLE SUM OF 1\nKTHXBYE".to_string()).is_err());
    assert!(matches!(interp.step(), Action::Done));
}

#[test]
fn any_of_and_all_of() {
    let src = "HAI 1.2\nANY OF FAIL AN WIN MKAY\nO RLY?\nYA RLY\nVISIBLE \"any\"\nNO WAI\nVISIBLE \"none\"\nOIC\nALL OF WIN FAIL MKAY\nO RLY?\nYA RLY\nVISIBLE \"all\"\nNO WAI\nVISIBLE \"not all\"\nOIC\nKTHXBYE";
    assert_eq!(output_of(src), "any\nnot all\n");
    assert_eq!(output_of("HAI 1.2\nI HAS A x ITZ ALL OF WIN AN 1 AN \"a\" MKAY\nx\nO RLY?\nYA RLY\nVISIBLE \"yes\"\nOIC\nKTHXBYE"), "yes\n");
    assert_eq!(error_of("HAI 1.2\nVISIBLE ANY OF WIN AN WIN\nKTHXBYE"), "Troof expression must end with MKAY");
}

#[test]
fn a_call_leaves_the_callers_other_variables() {
    let src = "HAI 1.2
I HAS A a ITZ 1
I HAS A r ITZ 5
HOW IZ I f YR x
I HAS A a ITZ 100
GIMMEH a
FOUND YR \"got :{a} :{x}\"
IF U SAY SO
r R I IZ f YR 2 MKAY
VISIBLE a \" \" r
KTHXBYE";
    let (out, err) = run_with_input(src, &["line"]);
    assert_eq!(err, None);
    assert_eq!(out, "1 got line 2\n");
}

#[test]
fn names_stay_single_in_scopes_and_functions() {
    let src = "HAI 1.2
HOW IZ I f YR a AN a
FOUND YR a
IF U SAY SO
HOW IZ I g
FOUND YR 1
IF U SAY SO
HOW IZ I g
FOUND YR 2
IF U SAY SO
I HAS A r ITZ 0
r R I IZ f YR 1 AN YR 2 MKAY
VISIBLE r
r R I IZ g MKAY
VISIBLE r
I HAS A r ITZ 5
KTHXBYE";
    let (out, err) = run(src);
    assert_eq!(out, "2\n2\n");
    assert_eq!(err, Some("Cannot redeclare variable: r ".to_string()));
}
