use vstd::prelude::*;
use crate::span::Span;
use crate::text::owned;

verus! {

/// What went wrong while lexing or parsing.
#[derive(Debug, Clone, Copy, PartialEq, Eq, Structural)]
pub enum ErrorKind {
    /// Lexer: unexpected character.
    UnexpectedChar,
    /// Lexer: unterminated string literal.
    UnterminatedString,
    /// Lexer: unterminated block comment.
    UnterminatedBlockComment,
    /// Lexer: invalid number literal.
    InvalidNumber,
    /// Lexer: unknown unit suffix.
    UnknownUnit,
    /// Parser: expected a specific token.
    ExpectedToken,
    /// Parser: expected an expression.
    ExpectedExpr,
    /// Parser: expected a statement.
    ExpectedStmt,
    /// Parser: unexpected end of file.
    UnexpectedEof,
}

/// A syntax error found by the lexer or the parser.
#[derive(Debug, Clone, PartialEq)]
pub struct SyntaxError {
    pub message: String,
    pub span: Span,
    pub kind: ErrorKind,
}

impl SyntaxError {
    pub fn new(message: &str, span: Span, kind: ErrorKind) -> (r: SyntaxError)
        ensures
            r.message@ == message@,
            r.span == span,
            r.kind == kind,
    {
        SyntaxError { message: owned(message), span, kind }
    }

    /// A copy of the error.
    pub fn copy(&self) -> (r: SyntaxError)
        ensures
            r == *self,
    {
        SyntaxError { message: self.message.clone(), span: self.span, kind: self.kind }
    }

    /// The user-facing text of the error: its message.
    pub fn to_text(&self) -> (r: String)
        ensures
            r@ == self.message@,
    {
        owned(self.message.as_str())
    }
}

} // verus!
