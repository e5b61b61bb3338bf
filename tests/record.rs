use covariant::record::{field_get, field_index, set_field};

fn rect() -> Vec<(String, f64)> {
    vec![("width".to_string(), 50.0), ("height".to_string(), 100.0)]
}

#[test]
fn field_access_finds_by_name() {
    let fields = rect();
    assert_eq!(field_get(&fields, "height"), Some(&100.0));
    assert_eq!(field_index(&fields, "width"), Some(0));
    assert_eq!(field_get(&fields, "depth"), None);
}

#[test]
fn with_update_overwrites_in_place() {
    let mut fields = rect();
    assert!(set_field(&mut fields, "height", 200.0));
    assert_eq!(fields, vec![("width".to_string(), 50.0), ("height".to_string(), 200.0)]);
}

#[test]
fn with_update_of_unknown_field_changes_nothing() {
    let mut fields = rect();
    assert!(!set_field(&mut fields, "depth", 1.0));
    assert_eq!(fields, rect());
}
