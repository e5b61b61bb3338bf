use covariant::ast::{AngleUnit, BinOpKind, Decimal, Expr, LengthUnit, SourceFile, Stmt, Type, UnaryOpKind};
use covariant::lexer::lex;
use covariant::parser::parse;
use covariant::span::Spanned;

fn dec(d: Decimal) -> f64 {
    d.mantissa as f64 / 10f64.powi(d.scale)
}

fn parse_file_str(source: &str) -> SourceFile {
    let (tokens, lex_errors) = lex(source);
    assert!(lex_errors.is_empty(), "lex errors: {lex_errors:?}");
    let (file, parse_errors) = parse(source, tokens);
    assert!(parse_errors.is_empty(), "parse errors: {parse_errors:?}");
    file
}

fn parse_expr_str(source: &str) -> Spanned<Expr> {
    let mut file = parse_file_str(source);
    assert_eq!(file.stmts.len(), 1, "expected one expression");
    match file.stmts.pop().unwrap().node {
        Stmt::Expr(e) => e,
        other => panic!("expected an expression, got {other:?}"),
    }
}

#[test]
fn parser_integer_literal() {
    let expr = parse_expr_str("42");
    assert!(matches!(expr.node, Expr::IntLit(42)));
}

#[test]
fn parser_float_literal() {
    let expr = parse_expr_str("1.23");
    assert!(matches!(expr.node, Expr::FloatLit(v) if (dec(v) - 1.23).abs() < f64::EPSILON));
}

#[test]
fn length_literal() {
    let expr = parse_expr_str("10mm");
    assert!(
        matches!(expr.node, Expr::LengthLit(v, LengthUnit::Mm) if (dec(v) - 10.0).abs() < f64::EPSILON)
    );
}

#[test]
fn angle_literal() {
    let expr = parse_expr_str("45deg");
    assert!(
        matches!(expr.node, Expr::AngleLit(v, AngleUnit::Deg) if (dec(v) - 45.0).abs() < f64::EPSILON)
    );
}

#[test]
fn bool_literal() {
    assert!(matches!(parse_expr_str("true").node, Expr::BoolLit(true)));
    assert!(matches!(parse_expr_str("false").node, Expr::BoolLit(false)));
}

#[test]
fn parser_string_literal() {
    let expr = parse_expr_str("\"hello\"");
    assert!(matches!(expr.node, Expr::StringLit(ref s) if s == "hello"));
}

#[test]
fn binary_add() {
    let expr = parse_expr_str("1 + 2");
    match &expr.node {
        Expr::BinOp { op, .. } => assert_eq!(op.node, BinOpKind::Add),
        other => panic!("expected BinOp, got {other:?}"),
    }
}

#[test]
fn precedence_mul_over_add() {
    // 1 + 2 * 3 should parse as 1 + (2 * 3)
    let expr = parse_expr_str("1 + 2 * 3");
    match &expr.node {
        Expr::BinOp { op, rhs, .. } => {
            assert_eq!(op.node, BinOpKind::Add);
            assert!(matches!(rhs.node, Expr::BinOp { .. }));
        }
        other => panic!("expected BinOp(Add), got {other:?}"),
    }
}

#[test]
fn precedence_paren() {
    // (1 + 2) * 3
    let expr = parse_expr_str("(1 + 2) * 3");
    match &expr.node {
        Expr::BinOp { op, lhs, .. } => {
            assert_eq!(op.node, BinOpKind::Mul);
            assert!(matches!(lhs.node, Expr::Grouped(_)));
        }
        other => panic!("expected BinOp(Mul), got {other:?}"),
    }
}

#[test]
fn unary_neg() {
    let expr = parse_expr_str("-x");
    match &expr.node {
        Expr::UnaryOp { op, operand } => {
            assert_eq!(op.node, UnaryOpKind::Neg);
            assert!(matches!(operand.node, Expr::Ident(_)));
        }
        other => panic!("expected UnaryOp, got {other:?}"),
    }
}

#[test]
fn unary_not() {
    let expr = parse_expr_str("!flag");
    match &expr.node {
        Expr::UnaryOp { op, .. } => assert_eq!(op.node, UnaryOpKind::Not),
        other => panic!("expected UnaryOp, got {other:?}"),
    }
}

#[test]
fn parser_function_call() {
    let expr = parse_expr_str("foo(1, 2)");
    match &expr.node {
        Expr::FnCall { func, args } => {
            assert!(matches!(func.node, Expr::Ident(ref n) if n == "foo"));
            assert_eq!(args.len(), 2);
        }
        other => panic!("expected FnCall, got {other:?}"),
    }
}

#[test]
fn named_args() {
    let expr = parse_expr_str("foo(depth = 10mm, chamfer = 0.5mm)");
    match &expr.node {
        Expr::FnCall { args, .. } => {
            assert!(args[0].name.is_some());
            assert_eq!(args[0].name.as_ref().unwrap().node, "depth");
            assert_eq!(args[1].name.as_ref().unwrap().node, "chamfer");
        }
        other => panic!("expected FnCall, got {other:?}"),
    }
}

#[test]
fn mixed_args() {
    let expr = parse_expr_str("f(a, b = 1)");
    match &expr.node {
        Expr::FnCall { args, .. } => {
            assert!(args[0].name.is_none());
            assert!(args[1].name.is_some());
        }
        other => panic!("expected FnCall, got {other:?}"),
    }
}

#[test]
fn field_access() {
    let expr = parse_expr_str("plate.width");
    match &expr.node {
        Expr::FieldAccess { field, .. } => assert_eq!(field.node, "width"),
        other => panic!("expected FieldAccess, got {other:?}"),
    }
}

#[test]
fn chained_field_and_call() {
    let expr = parse_expr_str("a.b(c)");
    assert!(matches!(expr.node, Expr::FnCall { .. }));
}

#[test]
fn pipe_operator() {
    let expr = parse_expr_str("x |> f |> g");
    // |> is left-assoc: ((x |> f) |> g)
    match &expr.node {
        Expr::BinOp { op, lhs, .. } => {
            assert_eq!(op.node, BinOpKind::Pipe);
            assert!(matches!(lhs.node, Expr::BinOp { .. }));
        }
        other => panic!("expected nested pipe, got {other:?}"),
    }
}

#[test]
fn parser_let_statement() {
    let file = parse_file_str("let x = 42");
    assert_eq!(file.stmts.len(), 1);
    match &file.stmts[0].node {
        Stmt::Let(ls) => assert_eq!(ls.name.node, "x"),
        other => panic!("expected Let, got {other:?}"),
    }
}

#[test]
fn let_with_type() {
    let file = parse_file_str("let x: Int = 42");
    match &file.stmts[0].node {
        Stmt::Let(ls) => {
            assert!(ls.ty.is_some());
            assert!(matches!(ls.ty.as_ref().unwrap().node, Type::Named(ref n) if n == "Int"));
        }
        other => panic!("expected Let, got {other:?}"),
    }
}

#[test]
fn fn_def() {
    let file = parse_file_str("fn add(a: Int, b: Int) -> Int { a + b }");
    assert_eq!(file.stmts.len(), 1);
    match &file.stmts[0].node {
        Stmt::FnDef(fndef) => {
            assert_eq!(fndef.name.node, "add");
            assert_eq!(fndef.params.len(), 2);
            assert!(fndef.return_ty.is_some());
        }
        other => panic!("expected FnDef, got {other:?}"),
    }
}

#[test]
fn data_def() {
    let file = parse_file_str("data Rectangle { width: Length, height: Length }");
    match &file.stmts[0].node {
        Stmt::DataDef(dd) => {
            assert_eq!(dd.name.node, "Rectangle");
            assert_eq!(dd.fields.len(), 2);
        }
        other => panic!("expected DataDef, got {other:?}"),
    }
}

#[test]
fn data_def_with_defaults() {
    let file = parse_file_str("data Rect { w: Length = 10mm, h: Length = 20mm }");
    match &file.stmts[0].node {
        Stmt::DataDef(dd) => {
            assert!(dd.fields[0].default.is_some());
            assert!(dd.fields[1].default.is_some());
        }
        other => panic!("expected DataDef, got {other:?}"),
    }
}

#[test]
fn enum_def() {
    let file = parse_file_str("enum Color { Red, Green, Blue }");
    match &file.stmts[0].node {
        Stmt::EnumDef(ed) => {
            assert_eq!(ed.name.node, "Color");
            assert_eq!(ed.variants.len(), 3);
        }
        other => panic!("expected EnumDef, got {other:?}"),
    }
}

#[test]
fn parser_if_expression() {
    let expr = parse_expr_str("if true { 1 } else { 2 }");
    assert!(matches!(expr.node, Expr::If { .. }));
}

#[test]
fn if_without_else() {
    let expr = parse_expr_str("if flag { 1 }");
    match &expr.node {
        Expr::If { else_branch, .. } => assert!(else_branch.is_none()),
        other => panic!("expected If, got {other:?}"),
    }
}

#[test]
fn match_expression() {
    let expr = parse_expr_str("match x { 1 => \"one\", _ => \"other\" }");
    match &expr.node {
        Expr::Match { arms, .. } => assert_eq!(arms.len(), 2),
        other => panic!("expected Match, got {other:?}"),
    }
}

#[test]
fn lambda() {
    let expr = parse_expr_str("|x| x + 1");
    match &expr.node {
        Expr::Lambda { params, .. } => assert_eq!(params.len(), 1),
        other => panic!("expected Lambda, got {other:?}"),
    }
}

#[test]
fn multi_param_lambda() {
    let expr = parse_expr_str("|x, y| x + y");
    match &expr.node {
        Expr::Lambda { params, .. } => assert_eq!(params.len(), 2),
        other => panic!("expected Lambda, got {other:?}"),
    }
}

#[test]
fn parser_list_literal() {
    let expr = parse_expr_str("[1, 2, 3]");
    match &expr.node {
        Expr::List(items) => assert_eq!(items.len(), 3),
        other => panic!("expected List, got {other:?}"),
    }
}

#[test]
fn empty_list() {
    let expr = parse_expr_str("[]");
    match &expr.node {
        Expr::List(items) => assert_eq!(items.len(), 0),
        other => panic!("expected List, got {other:?}"),
    }
}

#[test]
fn data_constructor() {
    let expr = parse_expr_str("Rectangle { width = 50mm, height = 100mm }");
    match &expr.node {
        Expr::DataConstructor { name, fields } => {
            assert_eq!(name.node, "Rectangle");
            assert_eq!(fields.len(), 2);
        }
        other => panic!("expected DataConstructor, got {other:?}"),
    }
}

#[test]
fn parser_with_update() {
    let expr = parse_expr_str("r with { height = 200mm }");
    assert!(matches!(expr.node, Expr::WithUpdate { .. }));
}

#[test]
fn block_expression() {
    let file = parse_file_str("{ let x = 1; x + 2 }");
    assert_eq!(file.stmts.len(), 1);
}

#[test]
fn nested_calls() {
    let expr = parse_expr_str("f(g(x), h(y))");
    match &expr.node {
        Expr::FnCall { args, .. } => {
            assert_eq!(args.len(), 2);
            assert!(matches!(args[0].value.node, Expr::FnCall { .. }));
            assert!(matches!(args[1].value.node, Expr::FnCall { .. }));
        }
        other => panic!("expected FnCall, got {other:?}"),
    }
}

#[test]
fn mounting_plate_example() {
    let source = r#"
let plate = box(vec3(80mm, 50mm, 5mm))

let hole = threaded_hole(
  ISO_METRIC, M3, TAP,
  depth = 8mm,
  chamfer = 0.5mm
)

let holes = union_many([
  move(hole, vec3(10mm, 10mm, 0)),
  move(hole, vec3(70mm, 10mm, 0)),
  move(hole, vec3(70mm, 40mm, 0)),
  move(hole, vec3(10mm, 40mm, 0))
])

let model = difference(plate, holes)

export_stl("mounting_plate.stl", model)
"#;
    let file = parse_file_str(source);
    assert_eq!(file.stmts.len(), 5);
}
