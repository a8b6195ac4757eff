use lolcoders::keywords::Keyword;
use lolcoders::lexer::{normalise_source, remove_obtw_commentary, split_line, tokenize_line, Token};

fn chars(s: &str) -> Vec<char> {
    s.chars().collect()
}

fn words(s: &str) -> Vec<String> {
    split_line(&chars(s)).into_iter().map(|w| w.into_iter().collect()).collect()
}

fn texts(tokens: &[Token]) -> Vec<String> {
    tokens.iter().map(|t| t.text().into_iter().collect()).collect()
}

#[test]
fn split_line_keeps_yarns_whole() {
    assert_eq!(words("  VISIBLE \"a b\"\tAN  x "), vec!["VISIBLE", "\"a b\"", "AN", "x"]);
    assert_eq!(words(""), Vec::<String>::new());
}

#[test]
fn tokens_of_a_declaration() {
    let ts = tokenize_line("I HAS A x ITZ 3.5").unwrap();
    assert_eq!(ts.len(), 6);
    assert!(ts[0].is_keyword(Keyword::I));
    assert!(ts[1].is_keyword(Keyword::Has));
    assert!(ts[2].is_keyword(Keyword::A));
    assert!(matches!(&ts[3], Token::Identifier(id) if id.as_str() == "x"));
    assert!(ts[4].is_keyword(Keyword::Itz));
    assert!(matches!(&ts[5], Token::Numbar(n) if n.text().into_iter().collect::<String>() == "3.50"));
}

#[test]
fn literal_tokens() {
    let ts = tokenize_line("WIN FAIL NOOB 42 -7 \"hi\"").unwrap();
    assert!(matches!(&ts[0], Token::Troof(t) if t.value()));
    assert!(matches!(&ts[1], Token::Troof(t) if !t.value()));
    assert!(ts[2].is_keyword(Keyword::Noob));
    assert!(matches!(&ts[3], Token::Numbr(n) if n.value() == 42));
    assert!(matches!(&ts[4], Token::Numbr(n) if n.value() == -7));
    assert!(matches!(&ts[5], Token::Yarn(y) if y.as_str() == "hi"));
}

#[test]
fn question_and_exclamation_marks_are_tokens() {
    let ts = tokenize_line("O RLY?").unwrap();
    assert_eq!(texts(&ts), vec!["O", "RLY", "?"]);
    assert!(matches!(ts[2], Token::QuestionMark));
    let ts = tokenize_line("VISIBLE x!").unwrap();
    assert!(matches!(ts[2], Token::ExclamationMark));
}

#[test]
fn adjacent_yarns_are_joined() {
    let ts = tokenize_line("VISIBLE \"a\" \"b\" x \"c\"").unwrap();
    assert_eq!(ts.len(), 4);
    assert!(matches!(&ts[1], Token::Yarn(y) if y.as_str() == "ab"));
    assert!(matches!(&ts[3], Token::Yarn(y) if y.as_str() == "c"));
    for pair in ts.windows(2) {
        assert!(!(matches!(pair[0], Token::Yarn(_)) && matches!(pair[1], Token::Yarn(_))));
    }
}

#[test]
fn invalid_identifier_is_an_error() {
    let e = tokenize_line("I HAS A 1x").err().unwrap();
    assert_eq!(e.message(), "Invalid variable identifier: 1x");
    let e = tokenize_line("x_1 _bad").err().unwrap();
    assert_eq!(e.message(), "Invalid variable identifier: _bad");
}

#[test]
fn token_texts() {
    let ts = tokenize_line("BOTH SAEM x AN \"y\" 1 2.5 WIN").unwrap();
    assert_eq!(texts(&ts), vec!["BOTH", "SAEM", "x", "AN", "\"y\"", "1", "2.50", "WIN"]);
}

#[test]
fn normalise_joins_unifies_and_strips() {
    let out = normalise_source("HAI 1.2\r\nVISIBLE \"a\" ...\r\n\"b\"\rI HAS A x ITZ 1, x R 2\n\n\tVISIBLE x BTW note\nKTHXBYE".to_string()).unwrap();
    assert_eq!(out, "HAI 1.2\nVISIBLE \"a\"  \"b\"\nI HAS A x ITZ 1\nx R 2\nVISIBLE x\nKTHXBYE\n");
}

#[test]
fn normalise_keeps_commas_and_btw_in_yarns() {
    let out = normalise_source("VISIBLE \"a, b BTW c\"\n".to_string()).unwrap();
    assert_eq!(out, "VISIBLE \"a, b BTW c\"\n");
}

#[test]
fn normalise_drops_block_comments() {
    let out = normalise_source("HAI 1.2\nOBTW\nanything here\nTLDR\nKTHXBYE\n".to_string()).unwrap();
    assert_eq!(out, "HAI 1.2\nKTHXBYE\n");
}

#[test]
fn block_comment_errors() {
    let e = remove_obtw_commentary(&chars("VISIBLE x OBTW\n")).err().unwrap();
    assert_eq!(e.message(), "OBTW must start a line");
    let e = remove_obtw_commentary(&chars("TLDR\n")).err().unwrap();
    assert_eq!(e.message(), "TLDR must be after OBTW");
    let e = remove_obtw_commentary(&chars("OBTW\nTLDR x\n")).err().unwrap();
    assert_eq!(e.message(), "TLDR must end a line");
}

#[test]
fn remove_obtw_commentary_trims_lines() {
    let out = remove_obtw_commentary(&chars("  VISIBLE x  \n\n   \nOBTW\nnote\nTLDR\nKTHXBYE")).unwrap();
    assert_eq!(out, "VISIBLE x\nKTHXBYE\n");
}

#[test]
fn keyword_texts_are_recognised() {
    for k in [Keyword::Hai, Keyword::KThxBye, Keyword::Visible, Keyword::Smoosh, Keyword::Omgwtf, Keyword::Yr, Keyword::A] {
        assert_eq!(Keyword::from_str(k.text()), Some(k));
    }
    assert_eq!(Keyword::from_str("hai"), None);
    assert_eq!(Keyword::from_str("SUMM"), None);
}

#[test]
fn normalised_source_is_tidy() {
    let out = normalise_source("  HAI 1.2   \n\n\t\nVISIBLE x   BTW c \n   \nOBTW\n note \nTLDR\nKTHXBYE\t".to_string()).unwrap();
    assert_eq!(out, "HAI 1.2\nVISIBLE x\nKTHXBYE\n");
    for line in out.split_terminator('\n') {
        assert!(!line.trim().is_empty());
        assert_eq!(line, line.trim_end());
    }
}

#[test]
fn normal_form_is_left_as_it_is() {
    let text = "HAI 1.2\nI HAS A x ITZ 5\nVISIBLE x\nKTHXBYE\n";
    assert_eq!(normalise_source(text.to_string()).unwrap(), text);
    let once = normalise_source("HAI 1.2\n\tI HAS A x ITZ 5, VISIBLE x BTW shown\nKTHXBYE".to_string()).unwrap();
    assert_eq!(once, text);
    assert_eq!(normalise_source(once.clone()).unwrap(), once);
}

#[test]
fn numbar_literal_too_large_for_scale_zero() {
    assert_eq!(tokenize_line("VISIBLE 1e9223372036854775808").err().unwrap().message(), "Number overflow");
    assert!(tokenize_line("VISIBLE 1e9223372036854775807").is_ok());
}

#[test]
fn comment_pass_twice_is_once() {
    let once = remove_obtw_commentary(&chars("  HAI 1.2  \nxOBTW gone\n still gone\nTLDR\nVISIBLE x BTW note\n\n\tKTHXBYE\t\n")).unwrap();
    assert_eq!(once, "HAI 1.2\nx\nVISIBLE x\nKTHXBYE\n");
    assert_eq!(remove_obtw_commentary(&chars(&once)).unwrap(), once);
}
