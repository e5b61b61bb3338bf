use vstd::prelude::*;
use crate::text::{owned, push_str};

verus! {

/// What a geometry operation failed at.
#[derive(Debug, Clone, Copy, PartialEq, Eq, Structural)]
pub enum GeomErrorKind {
    /// A boolean operation failed (degenerate input, tolerance issue, etc.).
    BooleanFailed,
    /// Tessellation failed to produce a valid mesh.
    TessellationFailed,
    /// The caller provided invalid parameters (zero radius, empty list, etc.).
    InvalidInput,
    /// An I/O error occurred during export.
    IoError,
}

/// The text shown for each kind.
pub open spec fn geom_kind_text(k: GeomErrorKind) -> Seq<char> {
    match k {
        GeomErrorKind::BooleanFailed => "boolean operation failed"@,
        GeomErrorKind::TessellationFailed => "tessellation failed"@,
        GeomErrorKind::InvalidInput => "invalid input"@,
        GeomErrorKind::IoError => "I/O error"@,
    }
}

impl GeomErrorKind {
    /// The text shown for this kind.
    pub fn to_text(self) -> (r: &'static str)
        ensures
            r@ == geom_kind_text(self),
    {
        match self {
            GeomErrorKind::BooleanFailed => "boolean operation failed",
            GeomErrorKind::TessellationFailed => "tessellation failed",
            GeomErrorKind::InvalidInput => "invalid input",
            GeomErrorKind::IoError => "I/O error",
        }
    }
}

/// A geometry error with a kind and a human-readable message.
#[derive(Debug)]
pub struct GeomError {
    pub kind: GeomErrorKind,
    pub message: String,
}

impl GeomError {
    pub fn new(kind: GeomErrorKind, message: &str) -> (r: GeomError)
        ensures
            r.kind == kind,
            r.message@ == message@,
    {
        GeomError { kind, message: owned(message) }
    }

    /// The text of the error: `kind: message`.
    pub fn to_text(&self) -> (r: String)
        ensures
            r@ == geom_kind_text(self.kind) + ": "@ + self.message@,
    {
        let mut r = owned(self.kind.to_text());
        push_str(&mut r, ": ");
        push_str(&mut r, self.message.as_str());
        r
    }
}

} // verus!
