use vstd::prelude::*;

use crate::text::{push_decimal, push_signed_decimal, spec_decimal, spec_signed_decimal};
use crate::token::{spec_type_text, Token, TokenType, TokenView};

verus! {

/// What went wrong.
#[derive(Clone, Debug)]
pub enum ErrorKind {
    ScannerError { message: String },
    WrongToken { expected: TokenType, found: TokenType },
    MissingExpression { message: String },
    Runtime { token: Token, message: String },
    InvalidAssignment,
    TooManyArguments,
}

/// An error of scanning, parsing or running a program, with the line and column
/// where it was found.
#[derive(Clone, Debug)]
pub struct Error {
    pub kind: ErrorKind,
    pub line: usize,
    pub col: i64,
}

/// The mathematical content of an [`ErrorKind`].
pub enum ErrorKindView {
    ScannerError { message: Seq<char> },
    WrongToken { expected: TokenType, found: TokenType },
    MissingExpression { message: Seq<char> },
    Runtime { token: TokenView, message: Seq<char> },
    InvalidAssignment,
    TooManyArguments,
}

/// The mathematical content of an [`Error`].
pub struct ErrorView {
    pub kind: ErrorKindView,
    pub line: usize,
    pub col: i64,
}

impl View for ErrorKind {
    type V = ErrorKindView;

    open spec fn view(&self) -> ErrorKindView {
        match self {
            ErrorKind::ScannerError { message } => ErrorKindView::ScannerError { message: message@ },
            ErrorKind::WrongToken { expected, found } => ErrorKindView::WrongToken {
                expected: *expected,
                found: *found,
            },
            ErrorKind::MissingExpression { message } => ErrorKindView::MissingExpression {
                message: message@,
            },
            ErrorKind::Runtime { token, message } => ErrorKindView::Runtime {
                token: token@,
                message: message@,
            },
            ErrorKind::InvalidAssignment => ErrorKindView::InvalidAssignment,
            ErrorKind::TooManyArguments => ErrorKindView::TooManyArguments,
        }
    }
}

impl View for Error {
    type V = ErrorView;

    open spec fn view(&self) -> ErrorView {
        ErrorView { kind: self.kind@, line: self.line, col: self.col }
    }
}

/// The error that a scanner reports with `message` at `line` and `col`.
pub open spec fn spec_scanner_error(message: Seq<char>, line: usize, col: i64) -> ErrorView {
    ErrorView { kind: ErrorKindView::ScannerError { message }, line, col }
}

/// The error of finding the token `found` where a token of kind `expected` belongs.
pub open spec fn spec_wrong_token(expected: TokenType, found: TokenView) -> ErrorView {
    ErrorView {
        kind: ErrorKindView::WrongToken { expected, found: found.ty },
        line: found.line,
        col: found.col,
    }
}

/// The error of finding no expression at `token`.
pub open spec fn spec_missing_expression(token: TokenView, message: Seq<char>) -> ErrorView {
    ErrorView {
        kind: ErrorKindView::MissingExpression { message },
        line: token.line,
        col: token.col,
    }
}

/// The error of assigning to something that is not a variable, found at `token`.
pub open spec fn spec_invalid_assignment(token: TokenView) -> ErrorView {
    ErrorView { kind: ErrorKindView::InvalidAssignment, line: token.line, col: token.col }
}

/// The error of a call or a function with too many arguments, found at `token`.
pub open spec fn spec_too_many_arguments(token: TokenView) -> ErrorView {
    ErrorView { kind: ErrorKindView::TooManyArguments, line: token.line, col: token.col }
}

/// The error of a failed run-time operation at `token`.
pub open spec fn spec_runtime_error(token: TokenView, message: Seq<char>) -> ErrorView {
    ErrorView {
        kind: ErrorKindView::Runtime { token, message },
        line: token.line,
        col: token.col,
    }
}

/// The text of the message part of an error.
pub open spec fn spec_error_body(k: ErrorKindView) -> Seq<char> {
    match k {
        ErrorKindView::WrongToken { expected, found } => "Wrong token. expected: "@
            + spec_type_text(expected) + ", found: "@ + spec_type_text(found),
        ErrorKindView::ScannerError { message } => message,
        ErrorKindView::MissingExpression { message } => message,
        ErrorKindView::Runtime { message, .. } => message,
        ErrorKindView::InvalidAssignment => "Invalid assignment target."@,
        ErrorKindView::TooManyArguments => "Can't have more than 255 arguments."@,
    }
}

/// The full text of an error: where it was found, then what went wrong.
pub open spec fn spec_error_text(e: ErrorView) -> Seq<char> {
    "[line "@ + spec_decimal(e.line as nat) + ":"@ + spec_signed_decimal(e.col as int)
        + "] Error: "@ + spec_error_body(e.kind)
}

impl Error {
    pub fn scanner(message: String, line: usize, col: i64) -> (r: Error)
        ensures
            r@ == spec_scanner_error(message@, line, col),
    {
        Error { kind: ErrorKind::ScannerError { message }, line, col }
    }

    pub fn wrong_token(expected: TokenType, found: &Token) -> (r: Error)
        ensures
            r@ == spec_wrong_token(expected, found@),
    {
        Error {
            kind: ErrorKind::WrongToken { expected, found: found.ty },
            line: found.line,
            col: found.col,
        }
    }

    pub fn missing_expression(token: &Token, message: String) -> (r: Error)
        ensures
            r@ == spec_missing_expression(token@, message@),
    {
        Error {
            kind: ErrorKind::MissingExpression { message },
            line: token.line,
            col: token.col,
        }
    }

    pub fn runtime(token: &Token, message: String) -> (r: Error)
        ensures
            r@ == spec_runtime_error(token@, message@),
    {
        Error {
            kind: ErrorKind::Runtime { token: token.duplicate(), message },
            line: token.line,
            col: token.col,
        }
    }

    pub fn invalid_assignment(token: &Token) -> (r: Error)
        ensures
            r@ == spec_invalid_assignment(token@),
    {
        Error { kind: ErrorKind::InvalidAssignment, line: token.line, col: token.col }
    }

    pub fn too_many_arguments(token: &Token) -> (r: Error)
        ensures
            r@ == spec_too_many_arguments(token@),
    {
        Error { kind: ErrorKind::TooManyArguments, line: token.line, col: token.col }
    }

    /// The full text of this error, as it is shown to a user.
    pub fn render(&self) -> (r: String)
        ensures
            r@ == spec_error_text(self@),
    {
        let mut s = String::from_str("[line ");
        push_decimal(&mut s, self.line as u64);
        s.append(":");
        push_signed_decimal(&mut s, self.col);
        s.append("] Error: ");
        match &self.kind {
            ErrorKind::WrongToken { expected, found } => {
                s.append("Wrong token. expected: ");
                let e = expected.text();
                s.append(e.as_str());
                s.append(", found: ");
                let f = found.text();
                s.append(f.as_str());
            },
            ErrorKind::ScannerError { message } => {
                s.append(message.as_str());
            },
            ErrorKind::MissingExpression { message } => {
                s.append(message.as_str());
            },
            ErrorKind::Runtime { message, .. } => {
                s.append(message.as_str());
            },
            ErrorKind::InvalidAssignment => {
                s.append("Invalid assignment target.");
            },
            ErrorKind::TooManyArguments => {
                s.append("Can't have more than 255 arguments.");
            },
        }
        assert(s@ =~= spec_error_text(self@));
        s
    }
}

} // verus!
