use covariant::eval_error::{EvalError, EvalErrorKind};
use covariant::export::{resolve_thread_mode, EffectiveThreadMode, ExportError, ExportErrorKind, MeshReport, MeshWarning};
use covariant::geom_error::{GeomError, GeomErrorKind};
use covariant::ir::{IrError, IrErrorKind};
use covariant::span::Span;
use covariant::thread::ThreadMode;

#[test]
fn error_construction() {
    let err = EvalError::new(EvalErrorKind::TypeError, "expected Int, got Float", Some(Span::new(0, 5)));
    assert_eq!(err.kind, EvalErrorKind::TypeError);
    assert_eq!(err.message, "expected Int, got Float");
    assert_eq!(err.span, Some(Span::new(0, 5)));
}

#[test]
fn error_display_with_span() {
    let err = EvalError::new(EvalErrorKind::UndefinedName, "unknown variable 'x'", Some(Span::new(10, 11)));
    let s = err.to_text();
    assert!(s.contains("UndefinedName"));
    assert!(s.contains("unknown variable 'x'"));
    assert_eq!(s, "[Span { start: 10, end: 11 }] UndefinedName: unknown variable 'x'");
}

#[test]
fn error_display_without_span() {
    let err = EvalError::new(EvalErrorKind::DivisionByZero, "division by zero", None);
    let s = err.to_text();
    assert!(s.contains("DivisionByZero"));
    assert!(s.contains("division by zero"));
}

#[test]
fn error_kind_display() {
    assert_eq!(EvalErrorKind::TypeError.name(), "TypeError");
    assert_eq!(EvalErrorKind::GeomError.name(), "GeomError");
    assert_eq!(EvalErrorKind::Custom.name(), "Error");
}

#[test]
fn error_display() {
    let err = GeomError::new(GeomErrorKind::BooleanFailed, "union produced empty solid");
    assert_eq!(err.to_text(), "boolean operation failed: union produced empty solid");
}

#[test]
fn error_error_kind_display() {
    assert_eq!(GeomErrorKind::IoError.to_text(), "I/O error");
    assert_eq!(GeomErrorKind::InvalidInput.to_text(), "invalid input");
}

#[test]
fn error_error_construction() {
    let err = IrError::new("test error", Span::new(0, 5), IrErrorKind::Unsupported);
    assert_eq!(err.message, "test error");
    assert_eq!(err.span, Span::new(0, 5));
    assert_eq!(err.kind, IrErrorKind::Unsupported);
}

#[test]
fn error_error_display() {
    let err = IrError::new("bad node", Span::new(10, 20), IrErrorKind::Unsupported);
    let s = err.to_text();
    assert!(s.contains("bad node"));
    assert!(s.contains("10..20"));
}

#[test]
fn export_error_wraps_geometry_error() {
    let g = GeomError::new(GeomErrorKind::TessellationFailed, "no faces");
    let e = ExportError::from_geom(&g);
    assert_eq!(e.kind, ExportErrorKind::GeomError);
    assert_eq!(e.to_text(), "geometry error: tessellation failed: no faces");
    let v = ExportError::new(ExportErrorKind::ValidationFailed, "empty");
    assert_eq!(v.to_text(), "mesh validation failed: empty");
}

#[test]
fn none_mode_no_warning() {
    let (mode, warning) = resolve_thread_mode(ThreadMode::Plain);
    assert_eq!(mode, EffectiveThreadMode::Plain);
    assert!(warning.is_none());
}

#[test]
fn cosmetic_falls_back_with_warning() {
    let (mode, warning) = resolve_thread_mode(ThreadMode::Cosmetic);
    assert_eq!(mode, EffectiveThreadMode::Plain);
    assert!(warning.is_some());
    assert!(warning.unwrap().contains("cosmetic"));
}

#[test]
fn full_falls_back_with_warning() {
    let (mode, warning) = resolve_thread_mode(ThreadMode::Full);
    assert_eq!(mode, EffectiveThreadMode::Plain);
    assert!(warning.is_some());
    assert!(warning.unwrap().contains("helical"));
}

#[test]
fn validate_empty_mesh_warns() {
    let report = MeshReport::for_counts(0, 0);
    assert!(!report.is_ok());
    assert_eq!(report.warnings, vec![MeshWarning::EmptyMesh]);
    assert_eq!(report.position_count, 0);
    assert_eq!(report.triangle_count, 0);
    assert_eq!(MeshWarning::EmptyMesh.to_text(), "mesh is empty (no positions or triangles)");
}

#[test]
fn mesh_with_positions_has_no_warning() {
    let report = MeshReport::for_counts(8, 12);
    assert!(report.is_ok());
    assert_eq!(report.triangle_count, 12);
}
