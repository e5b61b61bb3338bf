use covariant::ast::{Decimal, Expr, LengthUnit, Stmt};
use covariant::pipeline::{parse, parse_and_lower};
use covariant::units::length_to_mm;

fn dec(mantissa: u64, scale: i32) -> Decimal {
    Decimal { mantissa, scale }
}

#[test]
fn millimetres_keep_their_value() {
    assert_eq!(length_to_mm(dec(5, 0), LengthUnit::Mm), Some(dec(5, 0)));
}

#[test]
fn centimetres_are_ten_millimetres() {
    assert_eq!(length_to_mm(dec(1, 0), LengthUnit::Cm), Some(dec(10, 0)));
}

#[test]
fn metres_are_a_thousand_millimetres() {
    assert_eq!(length_to_mm(dec(15, 1), LengthUnit::M), Some(dec(15000, 1)));
}

#[test]
fn inches_are_twenty_five_point_four_millimetres() {
    // 2.5in = 63.5mm
    assert_eq!(length_to_mm(dec(25, 1), LengthUnit::In), Some(dec(6350, 2)));
    assert_eq!(length_to_mm(dec(1, 0), LengthUnit::In), Some(dec(254, 1)));
}

#[test]
fn conversion_that_does_not_fit_is_none() {
    assert_eq!(length_to_mm(dec(u64::MAX, 0), LengthUnit::Cm), None);
    assert_eq!(length_to_mm(dec(u64::MAX, 0), LengthUnit::Mm), Some(dec(u64::MAX, 0)));
}

#[test]
fn length_literals_parse_to_exact_decimals() {
    let (file, errors) = parse("1cm + 5mm");
    assert!(errors.is_empty());
    match &file.stmts[0].node {
        Stmt::Expr(e) => match &e.node {
            Expr::BinOp { lhs, rhs, .. } => {
                assert!(matches!(lhs.node, Expr::LengthLit(d, LengthUnit::Cm) if d == dec(1, 0)));
                assert!(matches!(rhs.node, Expr::LengthLit(d, LengthUnit::Mm) if d == dec(5, 0)));
            }
            other => panic!("expected BinOp, got {other:?}"),
        },
        other => panic!("expected expression, got {other:?}"),
    }
}

#[test]
fn end_to_end_programs_parse_and_lower() {
    let programs = [
        "let x = 1 + 2\nx",
        "let x = 1cm + 5mm\nx",
        "fn double(x: Int) -> Int { x * 2 }\nlet x = 5 |> double\nx",
        "data Rect { width: Length, height: Length }\nlet r = Rect { width = 50mm, height = 100mm }\nlet r2 = r with { height = 200mm }\nr2.height",
        "enum Color { Red, Green, Blue }\nlet c = Red\nmatch c { Red => 1, Green => 2, _ => 3 }",
        "let a = box(vec3(10mm,10mm,10mm))\nlet b = box(vec3(5mm,5mm,5mm))\ndifference(a, b)",
    ];
    for p in programs {
        let dag = parse_and_lower(p, "scenario.cov").unwrap_or_else(|e| panic!("{p}: {e}"));
        assert!(!dag.is_empty());
        assert_eq!(dag.roots().len(), p.lines().count(), "{p}");
    }
}

fn mm(value: Decimal, unit: LengthUnit) -> f64 {
    let d = length_to_mm(value, unit).unwrap();
    d.mantissa as f64 / 10f64.powi(d.scale)
}

#[test]
fn mm_identity() {
    assert!((mm(dec(10, 0), LengthUnit::Mm) - 10.0).abs() < f64::EPSILON);
}

#[test]
fn cm_to_mm() {
    assert!((mm(dec(1, 0), LengthUnit::Cm) - 10.0).abs() < f64::EPSILON);
}

#[test]
fn m_to_mm() {
    assert!((mm(dec(1, 0), LengthUnit::M) - 1000.0).abs() < f64::EPSILON);
}

#[test]
fn in_to_mm() {
    assert!((mm(dec(1, 0), LengthUnit::In) - 25.4).abs() < f64::EPSILON);
}

fn literal(src: &str) -> Expr {
    let (mut file, errors) = parse(src);
    assert!(errors.is_empty(), "{errors:?}");
    match file.stmts.pop().unwrap().node {
        Stmt::Expr(e) => e.node,
        other => panic!("expected an expression, got {other:?}"),
    }
}

#[test]
fn long_float_literal_keeps_its_leading_digits() {
    match literal("3.14159265358979323846") {
        Expr::FloatLit(d) => {
            assert_eq!(d, dec(3141592653589793238, 18));
            let v = d.mantissa as f64 / 10f64.powi(d.scale);
            assert!((v - 3.141592653589793).abs() < 1e-12);
        }
        other => panic!("expected FloatLit, got {other:?}"),
    }
}

#[test]
fn long_integer_part_scales_by_dropped_digits() {
    match literal("123456789012345678901234.5mm") {
        Expr::LengthLit(d, LengthUnit::Mm) => assert_eq!(d, dec(12345678901234567890, -4)),
        other => panic!("expected LengthLit, got {other:?}"),
    }
}

#[test]
fn negative_scale_converts_exactly() {
    assert_eq!(length_to_mm(dec(5, -2), LengthUnit::In), Some(dec(1270, -1)));
}
