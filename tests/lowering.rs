use covariant::ast::{AngleUnit, BinOpKind, Decimal, LengthUnit, UnaryOpKind};
use covariant::ir::{Dag, IrError, IrNode, IrPattern};
use covariant::lower::lower;
use covariant::pipeline::parse;

fn parse_and_lower(source: &str) -> (Dag, Vec<IrError>) {
    let (ast, parse_errors) = parse(source);
    assert!(parse_errors.is_empty(), "parse errors: {parse_errors:?}");
    lower(&ast)
}

#[test]
fn lower_int_lit() {
    let (dag, errors) = parse_and_lower("let x = 42");
    assert!(errors.is_empty());
    let root = dag.roots()[0];
    match dag.node(root) {
        IrNode::Let { value, .. } => {
            assert_eq!(*dag.node(*value), IrNode::IntLit(42));
        }
        other => panic!("expected Let, got {other:?}"),
    }
}

#[test]
fn lower_float_lit() {
    let (dag, errors) = parse_and_lower("let x = 3.14");
    assert!(errors.is_empty());
    let root = dag.roots()[0];
    match dag.node(root) {
        IrNode::Let { value, .. } => {
            assert_eq!(*dag.node(*value), IrNode::FloatLit(Decimal { mantissa: 314, scale: 2 }));
        }
        other => panic!("expected Let, got {other:?}"),
    }
}

#[test]
fn lower_length_lit() {
    let (dag, errors) = parse_and_lower("let x = 10mm");
    assert!(errors.is_empty());
    let root = dag.roots()[0];
    match dag.node(root) {
        IrNode::Let { value, .. } => {
            assert_eq!(*dag.node(*value), IrNode::LengthLit(Decimal { mantissa: 10, scale: 0 }, LengthUnit::Mm));
        }
        other => panic!("expected Let, got {other:?}"),
    }
}

#[test]
fn lower_angle_lit() {
    let (dag, errors) = parse_and_lower("let x = 45deg");
    assert!(errors.is_empty());
    let root = dag.roots()[0];
    match dag.node(root) {
        IrNode::Let { value, .. } => {
            assert_eq!(*dag.node(*value), IrNode::AngleLit(Decimal { mantissa: 45, scale: 0 }, AngleUnit::Deg));
        }
        other => panic!("expected Let, got {other:?}"),
    }
}

#[test]
fn lower_bool_lit() {
    let (dag, errors) = parse_and_lower("let x = true");
    assert!(errors.is_empty());
    let root = dag.roots()[0];
    match dag.node(root) {
        IrNode::Let { value, .. } => {
            assert_eq!(*dag.node(*value), IrNode::BoolLit(true));
        }
        other => panic!("expected Let, got {other:?}"),
    }
}

#[test]
fn lower_string_lit() {
    let (dag, errors) = parse_and_lower("let x = \"hello\"");
    assert!(errors.is_empty());
    let root = dag.roots()[0];
    match dag.node(root) {
        IrNode::Let { value, .. } => {
            assert_eq!(
                *dag.node(*value),
                IrNode::StringLit("hello".to_string())
            );
        }
        other => panic!("expected Let, got {other:?}"),
    }
}

// ======== Reference tests ========

#[test]
fn lower_ident() {
    let (dag, errors) = parse_and_lower("let x = y");
    assert!(errors.is_empty());
    let root = dag.roots()[0];
    match dag.node(root) {
        IrNode::Let { value, .. } => {
            assert_eq!(*dag.node(*value), IrNode::Ident("y".to_string()));
        }
        other => panic!("expected Let, got {other:?}"),
    }
}

// ======== Operation tests ========

#[test]
fn lower_binop() {
    let (dag, errors) = parse_and_lower("let x = 1 + 2");
    assert!(errors.is_empty());
    let root = dag.roots()[0];
    match dag.node(root) {
        IrNode::Let { value, .. } => match dag.node(*value) {
            IrNode::BinOp { lhs, op, rhs } => {
                assert_eq!(*dag.node(*lhs), IrNode::IntLit(1));
                assert_eq!(op.node, BinOpKind::Add);
                assert_eq!(*dag.node(*rhs), IrNode::IntLit(2));
            }
            other => panic!("expected BinOp, got {other:?}"),
        },
        other => panic!("expected Let, got {other:?}"),
    }
}

#[test]
fn lower_unaryop() {
    let (dag, errors) = parse_and_lower("let x = -5");
    assert!(errors.is_empty());
    let root = dag.roots()[0];
    match dag.node(root) {
        IrNode::Let { value, .. } => match dag.node(*value) {
            IrNode::UnaryOp { op, operand } => {
                assert_eq!(op.node, UnaryOpKind::Neg);
                assert_eq!(*dag.node(*operand), IrNode::IntLit(5));
            }
            other => panic!("expected UnaryOp, got {other:?}"),
        },
        other => panic!("expected Let, got {other:?}"),
    }
}

// ======== Grouped elimination ========

#[test]
fn lower_grouped_elimination() {
    let (dag, errors) = parse_and_lower("let x = (42)");
    assert!(errors.is_empty());
    let root = dag.roots()[0];
    match dag.node(root) {
        IrNode::Let { value, .. } => {
            // Grouped should be eliminated — directly an IntLit
            assert_eq!(*dag.node(*value), IrNode::IntLit(42));
        }
        other => panic!("expected Let, got {other:?}"),
    }
}

// ======== Pipe desugaring ========

#[test]
fn lower_pipe_simple() {
    // `a |> f` → `FnCall { func: f, args: [a] }`
    let (dag, errors) = parse_and_lower("let x = a |> f");
    assert!(errors.is_empty());
    let root = dag.roots()[0];
    match dag.node(root) {
        IrNode::Let { value, .. } => match dag.node(*value) {
            IrNode::FnCall { func, args } => {
                assert_eq!(*dag.node(*func), IrNode::Ident("f".to_string()));
                assert_eq!(args.len(), 1);
                assert_eq!(*dag.node(args[0].value), IrNode::Ident("a".to_string()));
            }
            other => panic!("expected FnCall, got {other:?}"),
        },
        other => panic!("expected Let, got {other:?}"),
    }
}

#[test]
fn lower_pipe_with_args() {
    // `a |> f(b)` → `FnCall { func: f, args: [a, b] }`
    let (dag, errors) = parse_and_lower("let x = a |> f(b)");
    assert!(errors.is_empty());
    let root = dag.roots()[0];
    match dag.node(root) {
        IrNode::Let { value, .. } => match dag.node(*value) {
            IrNode::FnCall { func, args } => {
                assert_eq!(*dag.node(*func), IrNode::Ident("f".to_string()));
                assert_eq!(args.len(), 2);
                assert_eq!(*dag.node(args[0].value), IrNode::Ident("a".to_string()));
                assert_eq!(*dag.node(args[1].value), IrNode::Ident("b".to_string()));
            }
            other => panic!("expected FnCall, got {other:?}"),
        },
        other => panic!("expected Let, got {other:?}"),
    }
}

#[test]
fn lower_pipe_chained() {
    // `a |> f |> g` → `g(f(a))`
    let (dag, errors) = parse_and_lower("let x = a |> f |> g");
    assert!(errors.is_empty());
    let root = dag.roots()[0];
    match dag.node(root) {
        IrNode::Let { value, .. } => match dag.node(*value) {
            IrNode::FnCall { func, args } => {
                // Outer call is g(...)
                assert_eq!(*dag.node(*func), IrNode::Ident("g".to_string()));
                assert_eq!(args.len(), 1);
                // Inner arg is f(a)
                match dag.node(args[0].value) {
                    IrNode::FnCall {
                        func: inner_func,
                        args: inner_args,
                    } => {
                        assert_eq!(
                            *dag.node(*inner_func),
                            IrNode::Ident("f".to_string())
                        );
                        assert_eq!(inner_args.len(), 1);
                        assert_eq!(
                            *dag.node(inner_args[0].value),
                            IrNode::Ident("a".to_string())
                        );
                    }
                    other => panic!("expected inner FnCall, got {other:?}"),
                }
            }
            other => panic!("expected FnCall, got {other:?}"),
        },
        other => panic!("expected Let, got {other:?}"),
    }
}

// ======== FnCall / FieldAccess ========

#[test]
fn lower_fncall() {
    let (dag, errors) = parse_and_lower("let x = f(1, 2)");
    assert!(errors.is_empty());
    let root = dag.roots()[0];
    match dag.node(root) {
        IrNode::Let { value, .. } => match dag.node(*value) {
            IrNode::FnCall { func, args } => {
                assert_eq!(*dag.node(*func), IrNode::Ident("f".to_string()));
                assert_eq!(args.len(), 2);
            }
            other => panic!("expected FnCall, got {other:?}"),
        },
        other => panic!("expected Let, got {other:?}"),
    }
}

#[test]
fn lower_field_access() {
    let (dag, errors) = parse_and_lower("let x = obj.field");
    assert!(errors.is_empty());
    let root = dag.roots()[0];
    match dag.node(root) {
        IrNode::Let { value, .. } => match dag.node(*value) {
            IrNode::FieldAccess { object, field } => {
                assert_eq!(*dag.node(*object), IrNode::Ident("obj".to_string()));
                assert_eq!(field.node, "field");
            }
            other => panic!("expected FieldAccess, got {other:?}"),
        },
        other => panic!("expected Let, got {other:?}"),
    }
}

// ======== List ========

#[test]
fn lower_list() {
    let (dag, errors) = parse_and_lower("let x = [1, 2, 3]");
    assert!(errors.is_empty());
    let root = dag.roots()[0];
    match dag.node(root) {
        IrNode::Let { value, .. } => match dag.node(*value) {
            IrNode::List(elems) => {
                assert_eq!(elems.len(), 3);
                assert_eq!(*dag.node(elems[0]), IrNode::IntLit(1));
                assert_eq!(*dag.node(elems[1]), IrNode::IntLit(2));
                assert_eq!(*dag.node(elems[2]), IrNode::IntLit(3));
            }
            other => panic!("expected List, got {other:?}"),
        },
        other => panic!("expected Let, got {other:?}"),
    }
}

// ======== Lambda ========

#[test]
fn lower_lambda() {
    let (dag, errors) = parse_and_lower("let f = |x| x");
    assert!(errors.is_empty());
    let root = dag.roots()[0];
    match dag.node(root) {
        IrNode::Let { value, .. } => match dag.node(*value) {
            IrNode::Lambda { params, body } => {
                assert_eq!(params.len(), 1);
                assert_eq!(params[0].name.node, "x");
                assert_eq!(*dag.node(*body), IrNode::Ident("x".to_string()));
            }
            other => panic!("expected Lambda, got {other:?}"),
        },
        other => panic!("expected Let, got {other:?}"),
    }
}

// ======== If ========

#[test]
fn lower_if_else() {
    let (dag, errors) = parse_and_lower("let x = if true { 1 } else { 2 }");
    assert!(errors.is_empty());
    let root = dag.roots()[0];
    match dag.node(root) {
        IrNode::Let { value, .. } => match dag.node(*value) {
            IrNode::If {
                cond,
                then_branch,
                else_branch,
            } => {
                assert_eq!(*dag.node(*cond), IrNode::BoolLit(true));
                assert!(matches!(dag.node(*then_branch), IrNode::Block { .. }));
                assert!(else_branch.is_some());
            }
            other => panic!("expected If, got {other:?}"),
        },
        other => panic!("expected Let, got {other:?}"),
    }
}

// ======== Match ========

#[test]
fn lower_match() {
    let (dag, errors) = parse_and_lower("let x = match y { 1 => 10, _ => 0 }");
    assert!(errors.is_empty());
    let root = dag.roots()[0];
    match dag.node(root) {
        IrNode::Let { value, .. } => match dag.node(*value) {
            IrNode::Match { subject, arms } => {
                assert_eq!(*dag.node(*subject), IrNode::Ident("y".to_string()));
                assert_eq!(arms.len(), 2);
            }
            other => panic!("expected Match, got {other:?}"),
        },
        other => panic!("expected Let, got {other:?}"),
    }
}

// ======== Block ========

#[test]
fn lower_block() {
    let (dag, errors) = parse_and_lower("let x = { let y = 1\n y }");
    assert!(errors.is_empty());
    let root = dag.roots()[0];
    match dag.node(root) {
        IrNode::Let { value, .. } => match dag.node(*value) {
            IrNode::Block { stmts, tail } => {
                assert_eq!(stmts.len(), 1);
                assert!(tail.is_some());
            }
            other => panic!("expected Block, got {other:?}"),
        },
        other => panic!("expected Let, got {other:?}"),
    }
}

// ======== Data constructor ========

#[test]
fn lower_data_constructor() {
    let (dag, errors) =
        parse_and_lower("let r = Rectangle { width = 10mm, height = 20mm }");
    assert!(errors.is_empty());
    let root = dag.roots()[0];
    match dag.node(root) {
        IrNode::Let { value, .. } => match dag.node(*value) {
            IrNode::DataConstructor { name, fields } => {
                assert_eq!(name.node, "Rectangle");
                assert_eq!(fields.len(), 2);
                assert_eq!(fields[0].name.node, "width");
                assert_eq!(fields[1].name.node, "height");
            }
            other => panic!("expected DataConstructor, got {other:?}"),
        },
        other => panic!("expected Let, got {other:?}"),
    }
}

// ======== With-update ========

#[test]
fn lower_with_update() {
    let (dag, errors) = parse_and_lower("let r2 = r with { height = 200mm }");
    assert!(errors.is_empty());
    let root = dag.roots()[0];
    match dag.node(root) {
        IrNode::Let { value, .. } => match dag.node(*value) {
            IrNode::WithUpdate { base, updates } => {
                assert_eq!(*dag.node(*base), IrNode::Ident("r".to_string()));
                assert_eq!(updates.len(), 1);
                assert_eq!(updates[0].name.node, "height");
            }
            other => panic!("expected WithUpdate, got {other:?}"),
        },
        other => panic!("expected Let, got {other:?}"),
    }
}

// ======== Let ========

#[test]
fn lower_let() {
    let (dag, errors) = parse_and_lower("let x = 42");
    assert!(errors.is_empty());
    assert_eq!(dag.roots().len(), 1);
    match dag.node(dag.roots()[0]) {
        IrNode::Let { name, ty, value } => {
            assert_eq!(name.node, "x");
            assert!(ty.is_none());
            assert_eq!(*dag.node(*value), IrNode::IntLit(42));
        }
        other => panic!("expected Let, got {other:?}"),
    }
}

// ======== FnDef ========

#[test]
fn lower_fn_def() {
    let (dag, errors) =
        parse_and_lower("fn double(x: Int) -> Int { x * 2 }");
    assert!(errors.is_empty());
    let root = dag.roots()[0];
    match dag.node(root) {
        IrNode::FnDef {
            name,
            params,
            return_ty,
            body,
        } => {
            assert_eq!(name.node, "double");
            assert_eq!(params.len(), 1);
            assert_eq!(params[0].name.node, "x");
            assert!(return_ty.is_some());
            assert!(matches!(dag.node(*body), IrNode::Block { .. }));
        }
        other => panic!("expected FnDef, got {other:?}"),
    }
}

// ======== DataDef ========

#[test]
fn lower_data_def() {
    let (dag, errors) =
        parse_and_lower("data Rectangle { width: Length, height: Length }");
    assert!(errors.is_empty());
    let root = dag.roots()[0];
    match dag.node(root) {
        IrNode::DataDef { name, fields } => {
            assert_eq!(name.node, "Rectangle");
            assert_eq!(fields.len(), 2);
            assert_eq!(fields[0].name.node, "width");
            assert_eq!(fields[1].name.node, "height");
        }
        other => panic!("expected DataDef, got {other:?}"),
    }
}

// ======== EnumDef ========

#[test]
fn lower_enum_def() {
    let (dag, errors) = parse_and_lower("enum Color { Red, Green, Blue }");
    assert!(errors.is_empty());
    let root = dag.roots()[0];
    match dag.node(root) {
        IrNode::EnumDef { name, variants } => {
            assert_eq!(name.node, "Color");
            assert_eq!(variants.len(), 3);
            assert_eq!(variants[0].node, "Red");
            assert_eq!(variants[1].node, "Green");
            assert_eq!(variants[2].node, "Blue");
        }
        other => panic!("expected EnumDef, got {other:?}"),
    }
}

// ======== Span preservation ========

#[test]
fn span_preservation() {
    let (dag, errors) = parse_and_lower("let x = 42");
    assert!(errors.is_empty());
    let root = dag.roots()[0];
    let root_span = dag.span(root);
    // The Let statement should span at least from "let" to "42"
    assert!(root_span.end > root_span.start);
}

// ======== No pipe in IR ========

#[test]
fn no_pipe_in_ir() {
    let (dag, errors) = parse_and_lower("let x = a |> f |> g(b)");
    assert!(errors.is_empty());
    for id in dag.ids() {
        let data = dag.get(id);
        if let IrNode::BinOp { op, .. } = &data.node {
            assert_ne!(
                op.node,
                BinOpKind::Pipe,
                "Pipe should be desugared, not present in IR"
            );
        }
    }
}
