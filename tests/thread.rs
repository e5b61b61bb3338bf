use covariant::thread::{ClearanceFit, ThreadKind, ThreadMode, ThreadSize, ThreadStandard};

#[test]
fn thread_mode_equality() {
    assert_ne!(ThreadMode::Plain, ThreadMode::Full);
    assert_eq!(ThreadMode::Cosmetic, ThreadMode::Cosmetic);
}

#[test]
fn thread_standard_from_str_error() {
    assert!("NOPE".parse::<ThreadStandard>().is_err());
}

#[test]
fn thread_size_iso_standard() {
    for size in &ThreadSize::all()[..15] {
        assert_eq!(size.standard(), ThreadStandard::IsoMetric, "{}", size.name());
    }
}

#[test]
fn thread_size_uts_standard() {
    for size in &ThreadSize::all()[15..] {
        assert_eq!(size.standard(), ThreadStandard::Uts, "{}", size.name());
    }
}

#[test]
fn thread_size_all_count() {
    assert_eq!(ThreadSize::all().len(), 28);
}

#[test]
fn thread_size_from_str_error() {
    assert!("M99".parse::<ThreadSize>().is_err());
}

#[test]
fn thread_kind_from_str_error() {
    assert!("nope".parse::<ThreadKind>().is_err());
}

#[test]
fn clearance_fit_from_str_error() {
    assert!("tight".parse::<ClearanceFit>().is_err());
}

#[test]
fn thread_standard_roundtrip() {
    for v in ThreadStandard::all() {
        assert_eq!(v.name().parse::<ThreadStandard>(), Ok(v));
    }
}

#[test]
fn thread_size_roundtrip() {
    for v in ThreadSize::all() {
        assert_eq!(v.name().parse::<ThreadSize>(), Ok(v));
    }
}

#[test]
fn thread_kind_roundtrip() {
    for v in ThreadKind::all() {
        assert_eq!(v.name().parse::<ThreadKind>(), Ok(v));
    }
}

#[test]
fn clearance_fit_roundtrip() {
    for v in ClearanceFit::all() {
        assert_eq!(v.name().parse::<ClearanceFit>(), Ok(v));
    }
}

#[test]
fn unknown_name_error_message() {
    assert_eq!("M99".parse::<ThreadSize>(), Err("unknown ThreadSize: M99".to_string()));
    assert_eq!(ThreadSize::Uts1_4_20.name(), "1/4\"-20");
}
