//! The error values of the pipeline, one kind per stage: lexing errors
//! carry a position, the others carry what their message needs. Every stage
//! stops at its first error and hands it to the caller unchanged.

use crate::chars::{dec_rep, push_char, push_u64_dec};
use vstd::prelude::*;

verus! {

/// What went wrong while lexing.
#[derive(Debug, Clone, PartialEq)]
pub enum LexErrorKind {
    /// A character outside the lexical alphabet (it is neither layout, nor
    /// starts a word, number or string).
    UnexpectedChar(char),
    /// The source ended inside a string literal.
    UnterminatedString,
}

/// A lexing error, with the line and column (1-based) of the offending
/// token's first character.
#[derive(Debug, Clone, PartialEq)]
pub struct LexError {
    pub kind: LexErrorKind,
    pub line: usize,
    pub column: usize,
}

/// The mathematical value of a lexing error.
pub struct LexErrorModel {
    pub kind: LexErrorKind,
    pub line: int,
    pub column: int,
}

impl View for LexError {
    type V = LexErrorModel;

    open spec fn view(&self) -> LexErrorModel {
        LexErrorModel { kind: self.kind, line: self.line as int, column: self.column as int }
    }
}

/// A parsing error: which expectation of the grammar failed.
#[derive(Debug, Clone, Copy, PartialEq, Eq)]
pub enum ParseError {
    ExpectedSpace,
    ExpectedNewline,
    ExpectedNewlineOrEof,
    ExpectedWord,
    ExpectedIn,
    UnexpectedToken,
}

/// An interpretation error.
#[derive(Debug, Clone, PartialEq)]
pub enum RuntimeError {
    UndefinedVariable(String),
    DivisionByZero,
    UnknownFunction(String),
    /// A string or float expression reached the integer-only evaluator.
    UnsupportedExpression,
}

/// The mathematical value of an interpretation error.
pub enum RuntimeErrorModel {
    UndefinedVariable(Seq<char>),
    DivisionByZero,
    UnknownFunction(Seq<char>),
    UnsupportedExpression,
}

impl View for RuntimeError {
    type V = RuntimeErrorModel;

    open spec fn view(&self) -> RuntimeErrorModel {
        match self {
            RuntimeError::UndefinedVariable(n) => RuntimeErrorModel::UndefinedVariable(n@),
            RuntimeError::DivisionByZero => RuntimeErrorModel::DivisionByZero,
            RuntimeError::UnknownFunction(n) => RuntimeErrorModel::UnknownFunction(n@),
            RuntimeError::UnsupportedExpression => RuntimeErrorModel::UnsupportedExpression,
        }
    }
}

/// A type-checking error.
#[derive(Debug, Clone, PartialEq)]
pub enum TypeError {
    /// An `if` condition whose type is not `Boolean`.
    NonBooleanCondition,
    /// An arithmetic operand that is neither `Number` nor `Float`.
    NonNumericArithmetic,
    UndefinedVariable(String),
    UndefinedFunction(String),
    /// A call whose argument count differs from the declaration.
    ArityMismatch { name: String, expected: usize, got: usize },
    /// A call argument whose type differs from the declared parameter type.
    ArgumentTypeMismatch,
}

/// The mathematical value of a type-checking error.
pub enum TypeErrorModel {
    NonBooleanCondition,
    NonNumericArithmetic,
    UndefinedVariable(Seq<char>),
    UndefinedFunction(Seq<char>),
    ArityMismatch { name: Seq<char>, expected: int, got: int },
    ArgumentTypeMismatch,
}

impl View for TypeError {
    type V = TypeErrorModel;

    open spec fn view(&self) -> TypeErrorModel {
        match self {
            TypeError::NonBooleanCondition => TypeErrorModel::NonBooleanCondition,
            TypeError::NonNumericArithmetic => TypeErrorModel::NonNumericArithmetic,
            TypeError::UndefinedVariable(n) => TypeErrorModel::UndefinedVariable(n@),
            TypeError::UndefinedFunction(n) => TypeErrorModel::UndefinedFunction(n@),
            TypeError::ArityMismatch { name, expected, got } => TypeErrorModel::ArityMismatch {
                name: name@,
                expected: *expected as int,
                got: *got as int,
            },
            TypeError::ArgumentTypeMismatch => TypeErrorModel::ArgumentTypeMismatch,
        }
    }
}

/// The rendering of a lexing error.
pub open spec fn lex_msg(e: LexErrorModel) -> Seq<char> {
    match e.kind {
        LexErrorKind::UnexpectedChar(c) => "Unexpected character '"@ + seq![c] + "' at line "@
            + dec_rep(e.line as nat) + ":"@ + dec_rep(e.column as nat),
        LexErrorKind::UnterminatedString => "Unterminated string at line "@ + dec_rep(
            e.line as nat,
        ),
    }
}

impl LexError {
    /// The error as human-readable text.
    pub fn message(&self) -> (r: String)
        ensures
            r@ == lex_msg(self@),
    {
        proof {
            reveal_strlit("Unexpected character '");
            reveal_strlit("' at line ");
            reveal_strlit(":");
            reveal_strlit("Unterminated string at line ");
        }
        let mut r = String::new();
        match &self.kind {
            LexErrorKind::UnexpectedChar(c) => {
                r.append("Unexpected character '");
                push_char(&mut r, *c);
                r.append("' at line ");
                push_u64_dec(&mut r, self.line as u64);
                r.append(":");
                push_u64_dec(&mut r, self.column as u64);
            },
            LexErrorKind::UnterminatedString => {
                r.append("Unterminated string at line ");
                push_u64_dec(&mut r, self.line as u64);
            },
        }
        proof {
            assert(r@ =~= lex_msg(self@));
        }
        r
    }
}

/// The rendering of a parsing error.
pub open spec fn parse_msg(e: ParseError) -> Seq<char> {
    match e {
        ParseError::ExpectedSpace => "Expected space"@,
        ParseError::ExpectedNewline => "Expected newline"@,
        ParseError::ExpectedNewlineOrEof => "Expected newline or EOF"@,
        ParseError::ExpectedWord => "Expected word"@,
        ParseError::ExpectedIn => "Expected 'in' in for loop"@,
        ParseError::UnexpectedToken => "Unexpected token in expression"@,
    }
}

impl ParseError {
    /// The error as human-readable text.
    pub fn message(&self) -> (r: String)
        ensures
            r@ == parse_msg(*self),
    {
        match self {
            ParseError::ExpectedSpace => String::from_str("Expected space"),
            ParseError::ExpectedNewline => String::from_str("Expected newline"),
            ParseError::ExpectedNewlineOrEof => String::from_str("Expected newline or EOF"),
            ParseError::ExpectedWord => String::from_str("Expected word"),
            ParseError::ExpectedIn => String::from_str("Expected 'in' in for loop"),
            ParseError::UnexpectedToken => String::from_str("Unexpected token in expression"),
        }
    }
}

/// The rendering of an interpretation error.
pub open spec fn runtime_msg(e: RuntimeErrorModel) -> Seq<char> {
    match e {
        RuntimeErrorModel::UndefinedVariable(n) => "Undefined variable: "@ + n,
        RuntimeErrorModel::DivisionByZero => "Division by zero"@,
        RuntimeErrorModel::UnknownFunction(n) => "Unknown function: "@ + n,
        RuntimeErrorModel::UnsupportedExpression => "Unsupported expression type in interpreter"@,
    }
}

impl RuntimeError {
    /// The error as human-readable text.
    pub fn message(&self) -> (r: String)
        ensures
            r@ == runtime_msg(self@),
    {
        proof {
            reveal_strlit("Undefined variable: ");
            reveal_strlit("Unknown function: ");
        }
        let mut r = String::new();
        match self {
            RuntimeError::UndefinedVariable(n) => {
                r.append("Undefined variable: ");
                r.append(n.as_str());
            },
            RuntimeError::DivisionByZero => {
                r = String::from_str("Division by zero");
            },
            RuntimeError::UnknownFunction(n) => {
                r.append("Unknown function: ");
                r.append(n.as_str());
            },
            RuntimeError::UnsupportedExpression => {
                r = String::from_str("Unsupported expression type in interpreter");
            },
        }
        proof {
            assert(r@ =~= runtime_msg(self@));
        }
        r
    }
}

/// The rendering of a type-checking error.
pub open spec fn type_msg(e: TypeErrorModel) -> Seq<char> {
    match e {
        TypeErrorModel::NonBooleanCondition => "If condition must be boolean"@,
        TypeErrorModel::NonNumericArithmetic => "Cannot perform arithmetic on non-numeric types"@,
        TypeErrorModel::UndefinedVariable(n) => "Undefined variable: "@ + n,
        TypeErrorModel::UndefinedFunction(n) => "Undefined function: "@ + n,
        TypeErrorModel::ArityMismatch { name, expected, got } => "Function "@ + name
            + " expects "@ + dec_rep(expected as nat) + " arguments, got "@ + dec_rep(got as nat),
        TypeErrorModel::ArgumentTypeMismatch => "Type mismatch in function call"@,
    }
}

impl TypeError {
    /// The error as human-readable text.
    pub fn message(&self) -> (r: String)
        ensures
            r@ == type_msg(self@),
    {
        proof {
            reveal_strlit("Undefined variable: ");
            reveal_strlit("Undefined function: ");
            reveal_strlit("Function ");
            reveal_strlit(" expects ");
            reveal_strlit(" arguments, got ");
        }
        let mut r = String::new();
        match self {
            TypeError::NonBooleanCondition => {
                r = String::from_str("If condition must be boolean");
            },
            TypeError::NonNumericArithmetic => {
                r = String::from_str("Cannot perform arithmetic on non-numeric types");
            },
            TypeError::UndefinedVariable(n) => {
                r.append("Undefined variable: ");
                r.append(n.as_str());
            },
            TypeError::UndefinedFunction(n) => {
                r.append("Undefined function: ");
                r.append(n.as_str());
            },
            TypeError::ArityMismatch { name, expected, got } => {
                r.append("Function ");
                r.append(name.as_str());
                r.append(" expects ");
                push_u64_dec(&mut r, *expected as u64);
                r.append(" arguments, got ");
                push_u64_dec(&mut r, *got as u64);
            },
            TypeError::ArgumentTypeMismatch => {
                r = String::from_str("Type mismatch in function call");
            },
        }
        proof {
            assert(r@ =~= type_msg(self@));
        }
        r
    }
}

} // verus!
