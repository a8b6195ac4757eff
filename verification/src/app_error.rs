//! The errors of lexing, parsing and running a program, and their messages.

use vstd::prelude::*;
use crate::lexer::{Token, TokenModel, Tokens, token_text, tokens_text};
use crate::text::string_of;
use crate::types::identifier::Identifier;
use crate::types::primitive::Yarn;

verus! {

broadcast use vstd::string::group_string_axioms;

/// Why lexing, parsing or running a program failed.
#[derive(Debug)]
pub enum AppError {
    HaiMustBeFirstLine,
    MustGiveVersionNumberInHaiLine,
    KThxByeMustBeLastLine,
    VariableDoesNotExist(Identifier),
    FunctionDoesNotExist(Identifier),
    NotEnoughArgsForFunction,
    InvalidIdentifier(String),
    InvalidIdentifierExpr(Tokens),
    TokenCannotBeExpression(Token),
    MissingExpression(Tokens),
    CouldNotGetCurrentVariableScope,
    CannotReturnFromFunctionOutsideFunction,
    FunctionMustEndIfUSaySo,
    IncorrectFunctionArguments(Identifier, Tokens),
    LineParseError(Tokens),
    FunctionArgumentsMustEndWithMkay,
    FunctionParseError,
    InvalidExpression(Tokens),
    YarnIsNotANumbar(Yarn),
    YarnIsNotANumbr(Yarn),
    YarnIsNotANumber(Yarn),
    CannotPerformMathsOnNoob,
    DivisionByZero,
    NumberOverflow,
    TroofExpressionMustEndWithMkay,
    TroofExpressionHasInvalidNumberOfArguments,
    ObtwMustStartLine,
    TldrMustEndLine,
    TldrMustBeAfterObtw,
    QuestionMarkIsNotAnExpression,
    ExclamationMarkIsNotAnExpression,
    CannotVisibleANoob,
    CannotVisibleATroof,
    VisibleMustHaveAnArg,
    BadGimmeh,
    CannotRedeclareVariable(Identifier),
    NoValueInItVariable,
    ORlyParseError,
    ORlyBlockMustHaveYaRly,
    ORlyBlockMustEndOic,
    ORlyBlockCanOnlyHaveOneNoWai,
    ORlyNoWaiBlockMustBeLast,
    CanHasMustEndQuestionMark,
    UnexpectedEOF,
    InvalidSyntax(Tokens),
    UnclosedInterpolation,
    UnsupportedInterpolation,
    InvalidUnicodeCodepoint,
    BadMaekCastType,
    TokenCannotBeValue(Token),
    MissingValue(Tokens),
}

/// An error with its payload taken by its view.
pub enum AppErrorModel {
    HaiMustBeFirstLine,
    MustGiveVersionNumberInHaiLine,
    KThxByeMustBeLastLine,
    VariableDoesNotExist(Seq<char>),
    FunctionDoesNotExist(Seq<char>),
    NotEnoughArgsForFunction,
    InvalidIdentifier(Seq<char>),
    InvalidIdentifierExpr(Seq<TokenModel>),
    TokenCannotBeExpression(TokenModel),
    MissingExpression(Seq<TokenModel>),
    CouldNotGetCurrentVariableScope,
    CannotReturnFromFunctionOutsideFunction,
    FunctionMustEndIfUSaySo,
    IncorrectFunctionArguments(Seq<char>, Seq<TokenModel>),
    LineParseError(Seq<TokenModel>),
    FunctionArgumentsMustEndWithMkay,
    FunctionParseError,
    InvalidExpression(Seq<TokenModel>),
    YarnIsNotANumbar(Seq<char>),
    YarnIsNotANumbr(Seq<char>),
    YarnIsNotANumber(Seq<char>),
    CannotPerformMathsOnNoob,
    DivisionByZero,
    NumberOverflow,
    TroofExpressionMustEndWithMkay,
    TroofExpressionHasInvalidNumberOfArguments,
    ObtwMustStartLine,
    TldrMustEndLine,
    TldrMustBeAfterObtw,
    QuestionMarkIsNotAnExpression,
    ExclamationMarkIsNotAnExpression,
    CannotVisibleANoob,
    CannotVisibleATroof,
    VisibleMustHaveAnArg,
    BadGimmeh,
    CannotRedeclareVariable(Seq<char>),
    NoValueInItVariable,
    ORlyParseError,
    ORlyBlockMustHaveYaRly,
    ORlyBlockMustEndOic,
    ORlyBlockCanOnlyHaveOneNoWai,
    ORlyNoWaiBlockMustBeLast,
    CanHasMustEndQuestionMark,
    UnexpectedEOF,
    InvalidSyntax(Seq<TokenModel>),
    UnclosedInterpolation,
    UnsupportedInterpolation,
    InvalidUnicodeCodepoint,
    BadMaekCastType,
    TokenCannotBeValue(TokenModel),
    MissingValue(Seq<TokenModel>),
}

impl View for AppError {
    type V = AppErrorModel;

    open spec fn view(&self) -> AppErrorModel {
        match self {
            AppError::HaiMustBeFirstLine => AppErrorModel::HaiMustBeFirstLine,
            AppError::MustGiveVersionNumberInHaiLine => AppErrorModel::MustGiveVersionNumberInHaiLine,
            AppError::KThxByeMustBeLastLine => AppErrorModel::KThxByeMustBeLastLine,
            AppError::VariableDoesNotExist(a) => AppErrorModel::VariableDoesNotExist(a@),
            AppError::FunctionDoesNotExist(a) => AppErrorModel::FunctionDoesNotExist(a@),
            AppError::NotEnoughArgsForFunction => AppErrorModel::NotEnoughArgsForFunction,
            AppError::InvalidIdentifier(a) => AppErrorModel::InvalidIdentifier(a@),
            AppError::InvalidIdentifierExpr(a) => AppErrorModel::InvalidIdentifierExpr(a@),
            AppError::TokenCannotBeExpression(a) => AppErrorModel::TokenCannotBeExpression(a@),
            AppError::MissingExpression(a) => AppErrorModel::MissingExpression(a@),
            AppError::CouldNotGetCurrentVariableScope => AppErrorModel::CouldNotGetCurrentVariableScope,
            AppError::CannotReturnFromFunctionOutsideFunction => AppErrorModel::CannotReturnFromFunctionOutsideFunction,
            AppError::FunctionMustEndIfUSaySo => AppErrorModel::FunctionMustEndIfUSaySo,
            AppError::IncorrectFunctionArguments(a, b) => AppErrorModel::IncorrectFunctionArguments(a@, b@),
            AppError::LineParseError(a) => AppErrorModel::LineParseError(a@),
            AppError::FunctionArgumentsMustEndWithMkay => AppErrorModel::FunctionArgumentsMustEndWithMkay,
            AppError::FunctionParseError => AppErrorModel::FunctionParseError,
            AppError::InvalidExpression(a) => AppErrorModel::InvalidExpression(a@),
            AppError::YarnIsNotANumbar(a) => AppErrorModel::YarnIsNotANumbar(a@),
            AppError::YarnIsNotANumbr(a) => AppErrorModel::YarnIsNotANumbr(a@),
            AppError::YarnIsNotANumber(a) => AppErrorModel::YarnIsNotANumber(a@),
            AppError::CannotPerformMathsOnNoob => AppErrorModel::CannotPerformMathsOnNoob,
            AppError::DivisionByZero => AppErrorModel::DivisionByZero,
            AppError::NumberOverflow => AppErrorModel::NumberOverflow,
            AppError::TroofExpressionMustEndWithMkay => AppErrorModel::TroofExpressionMustEndWithMkay,
            AppError::TroofExpressionHasInvalidNumberOfArguments => AppErrorModel::TroofExpressionHasInvalidNumberOfArguments,
            AppError::ObtwMustStartLine => AppErrorModel::ObtwMustStartLine,
            AppError::TldrMustEndLine => AppErrorModel::TldrMustEndLine,
            AppError::TldrMustBeAfterObtw => AppErrorModel::TldrMustBeAfterObtw,
            AppError::QuestionMarkIsNotAnExpression => AppErrorModel::QuestionMarkIsNotAnExpression,
            AppError::ExclamationMarkIsNotAnExpression => AppErrorModel::ExclamationMarkIsNotAnExpression,
            AppError::CannotVisibleANoob => AppErrorModel::CannotVisibleANoob,
            AppError::CannotVisibleATroof => AppErrorModel::CannotVisibleATroof,
            AppError::VisibleMustHaveAnArg => AppErrorModel::VisibleMustHaveAnArg,
            AppError::BadGimmeh => AppErrorModel::BadGimmeh,
            AppError::CannotRedeclareVariable(a) => AppErrorModel::CannotRedeclareVariable(a@),
            AppError::NoValueInItVariable => AppErrorModel::NoValueInItVariable,
            AppError::ORlyParseError => AppErrorModel::ORlyParseError,
            AppError::ORlyBlockMustHaveYaRly => AppErrorModel::ORlyBlockMustHaveYaRly,
            AppError::ORlyBlockMustEndOic => AppErrorModel::ORlyBlockMustEndOic,
            AppError::ORlyBlockCanOnlyHaveOneNoWai => AppErrorModel::ORlyBlockCanOnlyHaveOneNoWai,
            AppError::ORlyNoWaiBlockMustBeLast => AppErrorModel::ORlyNoWaiBlockMustBeLast,
            AppError::CanHasMustEndQuestionMark => AppErrorModel::CanHasMustEndQuestionMark,
            AppError::UnexpectedEOF => AppErrorModel::UnexpectedEOF,
            AppError::InvalidSyntax(a) => AppErrorModel::InvalidSyntax(a@),
            AppError::UnclosedInterpolation => AppErrorModel::UnclosedInterpolation,
            AppError::UnsupportedInterpolation => AppErrorModel::UnsupportedInterpolation,
            AppError::InvalidUnicodeCodepoint => AppErrorModel::InvalidUnicodeCodepoint,
            AppError::BadMaekCastType => AppErrorModel::BadMaekCastType,
            AppError::TokenCannotBeValue(a) => AppErrorModel::TokenCannotBeValue(a@),
            AppError::MissingValue(a) => AppErrorModel::MissingValue(a@),
        }
    }
}

impl AppErrorModel {
    /// The message that describes the error (the error's `Display`).
    pub open spec fn message(self) -> Seq<char> {
        match self {
            AppErrorModel::HaiMustBeFirstLine => "Must start with HAI"@,
            AppErrorModel::MustGiveVersionNumberInHaiLine => "Must give version number in HAI line"@,
            AppErrorModel::KThxByeMustBeLastLine => "Must end with KTHXBYE"@,
            AppErrorModel::VariableDoesNotExist(a) => "Variable "@ + a + " does not exist in current scope"@,
            AppErrorModel::FunctionDoesNotExist(a) => "Function "@ + a + " does not exist"@,
            AppErrorModel::NotEnoughArgsForFunction => "Not enough arguments to call function"@,
            AppErrorModel::InvalidIdentifier(a) => "Invalid variable identifier: "@ + a,
            AppErrorModel::InvalidIdentifierExpr(a) => "Invalid identifier expression: "@ + tokens_text(a),
            AppErrorModel::TokenCannotBeExpression(a) => "Token "@ + token_text(a) + " cannot be expression"@,
            AppErrorModel::MissingExpression(a) => "Missing expression: "@ + tokens_text(a),
            AppErrorModel::CouldNotGetCurrentVariableScope => "Could not get current variable scope"@,
            AppErrorModel::CannotReturnFromFunctionOutsideFunction => "Cannot return from function outside of a function"@,
            AppErrorModel::FunctionMustEndIfUSaySo => "Function must end IF U SAY SO"@,
            AppErrorModel::IncorrectFunctionArguments(a, b) => "Incorrect function arguments for "@ + a + ": "@ + tokens_text(b),
            AppErrorModel::LineParseError(a) => "Line parse error:\t"@ + tokens_text(a),
            AppErrorModel::FunctionArgumentsMustEndWithMkay => "Function arguments must end with MKAY"@,
            AppErrorModel::FunctionParseError => "Could not parse function"@,
            AppErrorModel::InvalidExpression(a) => "Invalid expression: "@ + tokens_text(a),
            AppErrorModel::YarnIsNotANumbar(a) => "YARN \""@ + a + "\" is not a NUMBAR"@,
            AppErrorModel::YarnIsNotANumbr(a) => "YARN \""@ + a + "\" is not a NUMBR"@,
            AppErrorModel::YarnIsNotANumber(a) => "YARN \""@ + a + "\" is not a number"@,
            AppErrorModel::CannotPerformMathsOnNoob => "Cannot perform maths expressions with NOOB"@,
            AppErrorModel::DivisionByZero => "Division by zero"@,
            AppErrorModel::NumberOverflow => "Number overflow"@,
            AppErrorModel::TroofExpressionMustEndWithMkay => "Troof expression must end with MKAY"@,
            AppErrorModel::TroofExpressionHasInvalidNumberOfArguments => "Troof expression has invalid number of arguments"@,
            AppErrorModel::ObtwMustStartLine => "OBTW must start a line"@,
            AppErrorModel::TldrMustEndLine => "TLDR must end a line"@,
            AppErrorModel::TldrMustBeAfterObtw => "TLDR must be after OBTW"@,
            AppErrorModel::QuestionMarkIsNotAnExpression => "Question mark is not an expression"@,
            AppErrorModel::ExclamationMarkIsNotAnExpression => "Exclamation mark is not an expression"@,
            AppErrorModel::CannotVisibleANoob => "Cannot VISIBLE a NOOB"@,
            AppErrorModel::CannotVisibleATroof => "Cannot VISIBLE a TROOF"@,
            AppErrorModel::VisibleMustHaveAnArg => "VISIBLE must have an arg"@,
            AppErrorModel::BadGimmeh => "Bad GIMMEH"@,
            AppErrorModel::CannotRedeclareVariable(a) => "Cannot redeclare variable: "@ + a + " "@,
            AppErrorModel::NoValueInItVariable => "No value in IT"@,
            AppErrorModel::ORlyParseError => "O RLY parse error"@,
            AppErrorModel::ORlyBlockMustHaveYaRly => "O RLY must have YA RLY block"@,
            AppErrorModel::ORlyBlockMustEndOic => "O RLY must end with OIC"@,
            AppErrorModel::ORlyBlockCanOnlyHaveOneNoWai => "O RLY block can only have one NO WAI block"@,
            AppErrorModel::ORlyNoWaiBlockMustBeLast => "NO WAI block must appear last inside O RLY"@,
            AppErrorModel::CanHasMustEndQuestionMark => "CAN HAS must end with a question mark"@,
            AppErrorModel::UnexpectedEOF => "Unexpected EOF"@,
            AppErrorModel::InvalidSyntax(a) => "Invalid syntax: "@ + tokens_text(a),
            AppErrorModel::UnclosedInterpolation => "Unclosed Interpolation"@,
            AppErrorModel::UnsupportedInterpolation => "Interpolation by character name is not supported"@,
            AppErrorModel::InvalidUnicodeCodepoint => "Invalid Unicode codepoint"@,
            AppErrorModel::BadMaekCastType => "Token cannot be a MAEK cast type"@,
            AppErrorModel::TokenCannotBeValue(a) => "Token "@ + token_text(a) + " cannot be a value"@,
            AppErrorModel::MissingValue(a) => "Missing value: "@ + tokens_text(a),
        }
    }
}

impl AppError {
    /// The message that describes the error (what its `Display` writes).
    pub fn message(&self) -> (r: String)
        ensures
            r@ == self@.message(),
    {
        match self {
            AppError::HaiMustBeFirstLine => {
                let mut s = String::from_str("Must start with HAI");
                s
            },
            AppError::MustGiveVersionNumberInHaiLine => {
                let mut s = String::from_str("Must give version number in HAI line");
                s
            },
            AppError::KThxByeMustBeLastLine => {
                let mut s = String::from_str("Must end with KTHXBYE");
                s
            },
            AppError::VariableDoesNotExist(a) => {
                let mut s = String::from_str("Variable ");
                s.append(a.as_str());
                s.append(" does not exist in current scope");
                s
            },
            AppError::FunctionDoesNotExist(a) => {
                let mut s = String::from_str("Function ");
                s.append(a.as_str());
                s.append(" does not exist");
                s
            },
            AppError::NotEnoughArgsForFunction => {
                let mut s = String::from_str("Not enough arguments to call function");
                s
            },
            AppError::InvalidIdentifier(a) => {
                let mut s = String::from_str("Invalid variable identifier: ");
                s.append(a.as_str());
                s
            },
            AppError::InvalidIdentifierExpr(a) => {
                let mut s = String::from_str("Invalid identifier expression: ");
                s.append(string_of(a.text().as_slice()).as_str());
                s
            },
            AppError::TokenCannotBeExpression(a) => {
                let mut s = String::from_str("Token ");
                s.append(string_of(a.text().as_slice()).as_str());
                s.append(" cannot be expression");
                s
            },
            AppError::MissingExpression(a) => {
                let mut s = String::from_str("Missing expression: ");
                s.append(string_of(a.text().as_slice()).as_str());
                s
            },
            AppError::CouldNotGetCurrentVariableScope => {
                let mut s = String::from_str("Could not get current variable scope");
                s
            },
            AppError::CannotReturnFromFunctionOutsideFunction => {
                let mut s = String::from_str("Cannot return from function outside of a function");
                s
            },
            AppError::FunctionMustEndIfUSaySo => {
                let mut s = String::from_str("Function must end IF U SAY SO");
                s
            },
            AppError::IncorrectFunctionArguments(a, b) => {
                let mut s = String::from_str("Incorrect function arguments for ");
                s.append(a.as_str());
                s.append(": ");
                s.append(string_of(b.text().as_slice()).as_str());
                s
            },
            AppError::LineParseError(a) => {
                let mut s = String::from_str("Line parse error:\t");
                s.append(string_of(a.text().as_slice()).as_str());
                s
            },
            AppError::FunctionArgumentsMustEndWithMkay => {
                let mut s = String::from_str("Function arguments must end with MKAY");
                s
            },
            AppError::FunctionParseError => {
                let mut s = String::from_str("Could not parse function");
                s
            },
            AppError::InvalidExpression(a) => {
                let mut s = String::from_str("Invalid expression: ");
                s.append(string_of(a.text().as_slice()).as_str());
                s
            },
            AppError::YarnIsNotANumbar(a) => {
                let mut s = String::from_str("YARN \"");
                s.append(a.as_str());
                s.append("\" is not a NUMBAR");
                s
            },
            AppError::YarnIsNotANumbr(a) => {
                let mut s = String::from_str("YARN \"");
                s.append(a.as_str());
                s.append("\" is not a NUMBR");
                s
            },
            AppError::YarnIsNotANumber(a) => {
                let mut s = String::from_str("YARN \"");
                s.append(a.as_str());
                s.append("\" is not a number");
                s
            },
            AppError::CannotPerformMathsOnNoob => {
                let mut s = String::from_str("Cannot perform maths expressions with NOOB");
                s
            },
            AppError::DivisionByZero => {
                let mut s = String::from_str("Division by zero");
                s
            },
            AppError::NumberOverflow => {
                let mut s = String::from_str("Number overflow");
                s
            },
            AppError::TroofExpressionMustEndWithMkay => {
                let mut s = String::from_str("Troof expression must end with MKAY");
                s
            },
            AppError::TroofExpressionHasInvalidNumberOfArguments => {
                let mut s = String::from_str("Troof expression has invalid number of arguments");
                s
            },
            AppError::ObtwMustStartLine => {
                let mut s = String::from_str("OBTW must start a line");
                s
            },
            AppError::TldrMustEndLine => {
                let mut s = String::from_str("TLDR must end a line");
                s
            },
            AppError::TldrMustBeAfterObtw => {
                let mut s = String::from_str("TLDR must be after OBTW");
                s
            },
            AppError::QuestionMarkIsNotAnExpression => {
                let mut s = String::from_str("Question mark is not an expression");
                s
            },
            AppError::ExclamationMarkIsNotAnExpression => {
                let mut s = String::from_str("Exclamation mark is not an expression");
                s
            },
            AppError::CannotVisibleANoob => {
                let mut s = String::from_str("Cannot VISIBLE a NOOB");
                s
            },
            AppError::CannotVisibleATroof => {
                let mut s = String::from_str("Cannot VISIBLE a TROOF");
                s
            },
            AppError::VisibleMustHaveAnArg => {
                let mut s = String::from_str("VISIBLE must have an arg");
                s
            },
            AppError::BadGimmeh => {
                let mut s = String::from_str("Bad GIMMEH");
                s
            },
            AppError::CannotRedeclareVariable(a) => {
                let mut s = String::from_str("Cannot redeclare variable: ");
                s.append(a.as_str());
                s.append(" ");
                s
            },
            AppError::NoValueInItVariable => {
                let mut s = String::from_str("No value in IT");
                s
            },
            AppError::ORlyParseError => {
                let mut s = String::from_str("O RLY parse error");
                s
            },
            AppError::ORlyBlockMustHaveYaRly => {
                let mut s = String::from_str("O RLY must have YA RLY block");
                s
            },
            AppError::ORlyBlockMustEndOic => {
                let mut s = String::from_str("O RLY must end with OIC");
                s
            },
            AppError::ORlyBlockCanOnlyHaveOneNoWai => {
                let mut s = String::from_str("O RLY block can only have one NO WAI block");
                s
            },
            AppError::ORlyNoWaiBlockMustBeLast => {
                let mut s = String::from_str("NO WAI block must appear last inside O RLY");
                s
            },
            AppError::CanHasMustEndQuestionMark => {
                let mut s = String::from_str("CAN HAS must end with a question mark");
                s
            },
            AppError::UnexpectedEOF => {
                let mut s = String::from_str("Unexpected EOF");
                s
            },
            AppError::InvalidSyntax(a) => {
                let mut s = String::from_str("Invalid syntax: ");
                s.append(string_of(a.text().as_slice()).as_str());
                s
            },
            AppError::UnclosedInterpolation => {
                let mut s = String::from_str("Unclosed Interpolation");
                s
            },
            AppError::UnsupportedInterpolation => {
                let mut s = String::from_str("Interpolation by character name is not supported");
                s
            },
            AppError::InvalidUnicodeCodepoint => {
                let mut s = String::from_str("Invalid Unicode codepoint");
                s
            },
            AppError::BadMaekCastType => {
                let mut s = String::from_str("Token cannot be a MAEK cast type");
                s
            },
            AppError::TokenCannotBeValue(a) => {
                let mut s = String::from_str("Token ");
                s.append(string_of(a.text().as_slice()).as_str());
                s.append(" cannot be a value");
                s
            },
            AppError::MissingValue(a) => {
                let mut s = String::from_str("Missing value: ");
                s.append(string_of(a.text().as_slice()).as_str());
                s
            },
        }
    }
}

} // verus!
