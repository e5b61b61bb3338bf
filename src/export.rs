use vstd::prelude::*;
use crate::geom_error::{GeomError, geom_kind_text};
use crate::text::{owned, push_str};
use crate::thread::ThreadMode;

verus! {

/// What an export failed at.
#[derive(Debug, Clone, Copy, PartialEq, Eq, Structural)]
pub enum ExportErrorKind {
    /// The geometry kernel returned an error during tessellation or writing.
    GeomError,
    /// Mesh validation detected a fatal issue (e.g. empty mesh).
    ValidationFailed,
}

/// The text shown for each kind.
pub open spec fn export_kind_text(k: ExportErrorKind) -> Seq<char> {
    match k {
        ExportErrorKind::GeomError => "geometry error"@,
        ExportErrorKind::ValidationFailed => "mesh validation failed"@,
    }
}

impl ExportErrorKind {
    /// The text shown for this kind.
    pub fn to_text(self) -> (r: &'static str)
        ensures
            r@ == export_kind_text(self),
    {
        match self {
            ExportErrorKind::GeomError => "geometry error",
            ExportErrorKind::ValidationFailed => "mesh validation failed",
        }
    }
}

/// An export error with a kind and a human-readable message.
#[derive(Debug)]
pub struct ExportError {
    pub kind: ExportErrorKind,
    pub message: String,
}

impl ExportError {
    pub fn new(kind: ExportErrorKind, message: &str) -> (r: ExportError)
        ensures
            r.kind == kind,
            r.message@ == message@,
    {
        ExportError { kind, message: owned(message) }
    }

    /// Wraps a geometry error, keeping its text as the message.
    pub fn from_geom(err: &GeomError) -> (r: ExportError)
        ensures
            r.kind == ExportErrorKind::GeomError,
            r.message@ == geom_kind_text(err.kind) + ": "@ + err.message@,
    {
        ExportError { kind: ExportErrorKind::GeomError, message: err.to_text() }
    }

    /// The text of the error: `kind: message`.
    pub fn to_text(&self) -> (r: String)
        ensures
            r@ == export_kind_text(self.kind) + ": "@ + self.message@,
    {
        let mut r = owned(self.kind.to_text());
        push_str(&mut r, ": ");
        push_str(&mut r, self.message.as_str());
        r
    }
}

/// STL output format.
#[derive(Debug, Clone, Copy, PartialEq, Eq, Structural, Hash)]
pub enum StlFormat {
    /// Compact binary format (the default).
    Binary,
    /// Human-readable ASCII format.
    Ascii,
}

/// A warning about a potential mesh issue.
#[derive(Debug, Clone, PartialEq, Eq, Structural)]
pub enum MeshWarning {
    /// The mesh contains no geometry at all.
    EmptyMesh,
}

impl MeshWarning {
    /// The text of the warning.
    pub fn to_text(&self) -> (r: &'static str)
        ensures
            r@ == "mesh is empty (no positions or triangles)"@,
    {
        "mesh is empty (no positions or triangles)"
    }
}

/// Summary of a mesh validation.
#[derive(Debug, Clone)]
pub struct MeshReport {
    /// Number of vertex positions.
    pub position_count: usize,
    /// Number of triangles.
    pub triangle_count: usize,
    /// Any warnings detected during validation.
    pub warnings: Vec<MeshWarning>,
}

impl MeshReport {
    /// Whether validation found no warnings.
    pub fn is_ok(&self) -> (r: bool)
        ensures
            r == (self.warnings@.len() == 0),
    {
        self.warnings.len() == 0
    }

    /// The report for a mesh with the given counts: a mesh without
    /// positions is empty, and that is its one warning.
    pub fn for_counts(position_count: usize, triangle_count: usize) -> (r: MeshReport)
        ensures
            r.position_count == position_count,
            r.triangle_count == triangle_count,
            position_count == 0 ==> r.warnings@ == seq![MeshWarning::EmptyMesh],
            position_count != 0 ==> r.warnings@.len() == 0,
    {
        let warnings = if position_count == 0 {
            vec![MeshWarning::EmptyMesh]
        } else {
            Vec::new()
        };
        MeshReport { position_count, triangle_count, warnings }
    }
}

/// The thread rendering mode that STL export actually uses.
#[derive(Debug, Clone, Copy, PartialEq, Eq, Structural)]
pub enum EffectiveThreadMode {
    /// No thread geometry: plain cylindrical holes.
    Plain,
}

/// Resolves a requested thread mode into the mode that STL export uses,
/// with a warning when it falls back.
pub fn resolve_thread_mode(mode: ThreadMode) -> (r: (EffectiveThreadMode, Option<&'static str>))
    ensures
        r.0 == EffectiveThreadMode::Plain,
        mode == ThreadMode::Plain ==> r.1 == None::<&'static str>,
        mode == ThreadMode::Cosmetic ==> (r.1 matches Some(w) && w@
            == "cosmetic thread annotations are not supported in STL; falling back to None"@),
        mode == ThreadMode::Full ==> (r.1 matches Some(w) && w@
            == "full helical thread geometry is not yet implemented; falling back to None"@),
{
    match mode {
        ThreadMode::Plain => (EffectiveThreadMode::Plain, None),
        ThreadMode::Cosmetic => (
            EffectiveThreadMode::Plain,
            Some("cosmetic thread annotations are not supported in STL; falling back to None"),
        ),
        ThreadMode::Full => (
            EffectiveThreadMode::Plain,
            Some("full helical thread geometry is not yet implemented; falling back to None"),
        ),
    }
}

} // verus!
