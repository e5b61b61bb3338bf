use vstd::prelude::*;
use crate::span::Span;
use crate::text::{decimal, owned, push_decimal, push_str};

verus! {

/// Categories of evaluation errors.
#[derive(Debug, Clone, Copy, PartialEq, Eq, Structural)]
pub enum EvalErrorKind {
    /// Type mismatch at runtime.
    TypeError,
    /// Reference to an undefined name.
    UndefinedName,
    /// Wrong number of arguments.
    ArityMismatch,
    /// Field not found on a data value.
    FieldNotFound,
    /// Division by zero.
    DivisionByZero,
    /// Error from the geometry kernel.
    GeomError,
    /// Attempted to call a non-callable value.
    NotCallable,
    /// No pattern matched in a match expression.
    PatternMismatch,
    /// General-purpose error.
    Custom,
}

/// The name under which each kind is shown.
pub open spec fn eval_kind_name(k: EvalErrorKind) -> Seq<char> {
    match k {
        EvalErrorKind::TypeError => "TypeError"@,
        EvalErrorKind::UndefinedName => "UndefinedName"@,
        EvalErrorKind::ArityMismatch => "ArityMismatch"@,
        EvalErrorKind::FieldNotFound => "FieldNotFound"@,
        EvalErrorKind::DivisionByZero => "DivisionByZero"@,
        EvalErrorKind::GeomError => "GeomError"@,
        EvalErrorKind::NotCallable => "NotCallable"@,
        EvalErrorKind::PatternMismatch => "PatternMismatch"@,
        EvalErrorKind::Custom => "Error"@,
    }
}

/// A span as it is shown in a diagnostic: `Span { start: 10, end: 11 }`.
pub open spec fn span_debug_text(s: Span) -> Seq<char> {
    "Span { start: "@ + decimal(s.start as nat) + ", end: "@ + decimal(s.end as nat) + " }"@
}

/// The text of an evaluation error: `[span] Kind: message`, or
/// `Kind: message` when it has no span.
pub open spec fn eval_error_text(e: EvalError) -> Seq<char> {
    match e.span {
        Some(s) => "["@ + span_debug_text(s) + "] "@ + eval_kind_name(e.kind) + ": "@ + e.message@,
        None => eval_kind_name(e.kind) + ": "@ + e.message@,
    }
}

impl EvalErrorKind {
    /// The name under which this kind is shown.
    pub fn name(self) -> (r: &'static str)
        ensures
            r@ == eval_kind_name(self),
    {
        match self {
            EvalErrorKind::TypeError => "TypeError",
            EvalErrorKind::UndefinedName => "UndefinedName",
            EvalErrorKind::ArityMismatch => "ArityMismatch",
            EvalErrorKind::FieldNotFound => "FieldNotFound",
            EvalErrorKind::DivisionByZero => "DivisionByZero",
            EvalErrorKind::GeomError => "GeomError",
            EvalErrorKind::NotCallable => "NotCallable",
            EvalErrorKind::PatternMismatch => "PatternMismatch",
            EvalErrorKind::Custom => "Error",
        }
    }
}

/// An evaluation error, with its kind and, where known, its source span.
#[derive(Debug, Clone)]
pub struct EvalError {
    pub message: String,
    pub span: Option<Span>,
    pub kind: EvalErrorKind,
}

impl EvalError {
    pub fn new(kind: EvalErrorKind, message: &str, span: Option<Span>) -> (r: EvalError)
        ensures
            r.message@ == message@,
            r.span == span,
            r.kind == kind,
    {
        EvalError { message: owned(message), span, kind }
    }

    /// The user-facing text of the error.
    pub fn to_text(&self) -> (r: String)
        ensures
            r@ == eval_error_text(*self),
    {
        let mut r = String::new();
        match self.span {
            Some(s) => {
                push_str(&mut r, "[Span { start: ");
                push_decimal(&mut r, s.start as u64);
                push_str(&mut r, ", end: ");
                push_decimal(&mut r, s.end as u64);
                push_str(&mut r, " }] ");
            },
            None => {},
        }
        push_str(&mut r, self.kind.name());
        push_str(&mut r, ": ");
        push_str(&mut r, self.message.as_str());
        proof {
            reveal_strlit("[Span { start: ");
            reveal_strlit("Span { start: ");
            reveal_strlit("[");
            reveal_strlit(" }] ");
            reveal_strlit(" }");
            reveal_strlit("] ");
            let e = *self;
            match e.span {
                Some(s) => {
                    assert(r@ =~= eval_error_text(e));
                },
                None => {
                    assert(r@ =~= eval_error_text(e));
                },
            }
        }
        r
    }
}

} // verus!
