use covariant::types::Ty;

#[test]
fn display_simple_types() {
    assert_eq!(Ty::Int.to_text(), "Int");
    assert_eq!(Ty::Float.to_text(), "Float");
    assert_eq!(Ty::Length.to_text(), "Length");
    assert_eq!(Ty::Angle.to_text(), "Angle");
    assert_eq!(Ty::Bool.to_text(), "Bool");
    assert_eq!(Ty::String.to_text(), "String");
    assert_eq!(Ty::Vec3.to_text(), "Vec3");
    assert_eq!(Ty::Solid.to_text(), "Solid");
    assert_eq!(Ty::Mesh.to_text(), "Mesh");
    assert_eq!(Ty::Unit.to_text(), "Unit");
}

#[test]
fn display_list_type() {
    let ty = Ty::List(Box::new(Ty::Int));
    assert_eq!(ty.to_text(), "List[Int]");
}

#[test]
fn display_fn_type() {
    let ty = Ty::Fn { params: vec![Ty::Int, Ty::Float], ret: Box::new(Ty::Bool) };
    assert_eq!(ty.to_text(), "Fn(Int, Float) -> Bool");
}

#[test]
fn display_data_type() {
    let ty = Ty::Data("Rectangle".to_string());
    assert_eq!(ty.to_text(), "Rectangle");
}

#[test]
fn display_enum_type() {
    let ty = Ty::Enum("Color".to_string());
    assert_eq!(ty.to_text(), "Color");
}

#[test]
fn display_nested_fn_type() {
    let ty = Ty::Fn { params: vec![], ret: Box::new(Ty::List(Box::new(Ty::Length))) };
    assert_eq!(ty.to_text(), "Fn() -> List[Length]");
}
