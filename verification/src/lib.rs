//! An interpreter for LOLCODE programs: a lexer, a parser and an evaluator whose
//! behaviour is stated in contracts and proved.

pub mod text;
pub mod decimal;
pub mod keywords;
pub mod app_error;
pub mod lexer;
pub mod types;
pub mod expression;
pub mod statement;
pub mod parser;
pub mod evaluation;
pub mod interpreter;
