use covariant::ast::{AngleUnit, BinOpKind, Decimal, Expr, LetStmt, LengthUnit, SourceFile, Stmt};
use covariant::ir::{Dag, IrArg, IrFieldInit, IrNode, IrNodeData, IrParam, NodeId};
use covariant::lower::lower;
use covariant::span::{Span, Spanned};

fn sp<T>(node: T, start: u32, end: u32) -> Spanned<T> {
    Spanned::new(node, Span::new(start, end))
}

fn ident(name: &str, start: u32) -> Spanned<Expr> {
    sp(Expr::Ident(name.to_string()), start, start + name.len() as u32)
}

fn pipe(lhs: Spanned<Expr>, rhs: Spanned<Expr>) -> Spanned<Expr> {
    let span = Span::new(lhs.span.start, rhs.span.end);
    Spanned::new(
        Expr::BinOp { lhs: Box::new(lhs), op: sp(BinOpKind::Pipe, 0, 0), rhs: Box::new(rhs) },
        span,
    )
}

fn let_file(name: &str, value: Spanned<Expr>) -> SourceFile {
    let span = Span::new(0, value.span.end);
    SourceFile {
        stmts: vec![Spanned::new(
            Stmt::Let(LetStmt { name: sp(name.to_string(), 4, 5), ty: None, value }),
            span,
        )],
        span,
    }
}

fn let_value(dag: &Dag) -> NodeId {
    match dag.node(dag.roots()[0]) {
        IrNode::Let { value, .. } => *value,
        other => panic!("expected Let, got {other:?}"),
    }
}

#[test]
fn node_id_display() {
    assert_eq!(NodeId(0).to_text(), "n0");
    assert_eq!(NodeId(42).to_text(), "n42");
}

#[test]
fn node_id_ordering() {
    let a = NodeId(0);
    let b = NodeId(1);
    let c = NodeId(2);
    assert!(a < b);
    assert!(b < c);
    assert_eq!(a, NodeId::from_raw(0));
}

#[test]
fn ir_param_construction() {
    let param = IrParam {
        name: Spanned::new("x".to_string(), Span::new(0, 1)),
        ty: None,
        default: None,
        span: Span::new(0, 1),
    };
    assert_eq!(param.name.node, "x");
}

#[test]
fn ir_arg_construction() {
    let arg = IrArg {
        name: Some(Spanned::new("depth".to_string(), Span::new(0, 5))),
        value: NodeId(0),
        span: Span::new(0, 10),
    };
    assert!(arg.name.is_some());
}

#[test]
fn ir_field_init_construction() {
    let fi = IrFieldInit {
        name: Spanned::new("width".to_string(), Span::new(0, 5)),
        value: NodeId(0),
        span: Span::new(0, 12),
    };
    assert_eq!(fi.name.node, "width");
}

#[test]
fn insert_and_get() {
    let mut dag = Dag::new();
    let id = dag.insert(IrNode::IntLit(42), Span::new(0, 2));
    assert_eq!(id, NodeId(0));
    assert_eq!(*dag.node(id), IrNode::IntLit(42));
    assert_eq!(dag.span(id), Span::new(0, 2));
}

#[test]
fn multiple_nodes() {
    let mut dag = Dag::new();
    let a = dag.insert(IrNode::IntLit(1), Span::new(0, 1));
    let b = dag.insert(IrNode::IntLit(2), Span::new(2, 3));
    let c = dag.insert(IrNode::IntLit(3), Span::new(4, 5));
    assert_eq!(a, NodeId(0));
    assert_eq!(b, NodeId(1));
    assert_eq!(c, NodeId(2));
    assert_eq!(dag.len(), 3);
}

#[test]
fn roots() {
    let mut dag = Dag::new();
    let a = dag.insert(IrNode::IntLit(1), Span::new(0, 1));
    let b = dag.insert(IrNode::IntLit(2), Span::new(2, 3));
    dag.set_roots(vec![a, b]);
    assert_eq!(dag.roots(), &[NodeId(0), NodeId(1)]);
}

#[test]
fn empty_dag() {
    let dag = Dag::new();
    assert!(dag.is_empty());
    assert_eq!(dag.len(), 0);
    assert!(dag.roots().is_empty());
}

#[test]
fn iterate() {
    let mut dag = Dag::new();
    dag.insert(IrNode::BoolLit(true), Span::new(0, 4));
    dag.insert(IrNode::BoolLit(false), Span::new(5, 10));
    let items = dag.ids();
    assert_eq!(items.len(), 2);
    assert_eq!(items[0], NodeId(0));
    assert_eq!(items[1], NodeId(1));
}

#[test]
fn default_is_empty() {
    let dag: Dag = Default::default();
    assert!(dag.is_empty());
}

#[test]
fn get_full_data() {
    let mut dag = Dag::new();
    let id = dag.insert(IrNode::StringLit("hello".to_string()), Span::new(0, 7));
    let data = dag.get(id);
    assert_eq!(data.node, IrNode::StringLit("hello".to_string()));
    assert_eq!(data.span, Span::new(0, 7));
}

#[test]
fn lower_length_literal_keeps_decimal() {
    let value = sp(Expr::LengthLit(Decimal { mantissa: 25, scale: 1 }, LengthUnit::In), 8, 13);
    let (dag, errors) = lower(&let_file("x", value));
    assert!(errors.is_empty());
    let v = let_value(&dag);
    assert_eq!(*dag.node(v), IrNode::LengthLit(Decimal { mantissa: 25, scale: 1 }, LengthUnit::In));
}

#[test]
fn lower_grouped_leaves_no_node() {
    let inner = sp(Expr::IntLit(7), 9, 10);
    let grouped = sp(Expr::Grouped(Box::new(inner)), 8, 11);
    let (dag, errors) = lower(&let_file("x", grouped));
    assert!(errors.is_empty());
    assert_eq!(dag.len(), 2);
    assert_eq!(*dag.node(let_value(&dag)), IrNode::IntLit(7));
}

#[test]
fn lower_pipe_becomes_call() {
    let (dag, errors) = lower(&let_file("x", pipe(ident("a", 8), ident("f", 13))));
    assert!(errors.is_empty());
    match dag.node(let_value(&dag)) {
        IrNode::FnCall { func, args } => {
            assert_eq!(*dag.node(*func), IrNode::Ident("f".to_string()));
            assert_eq!(args.len(), 1);
            assert!(args[0].name.is_none());
            assert_eq!(*dag.node(args[0].value), IrNode::Ident("a".to_string()));
        }
        other => panic!("expected FnCall, got {other:?}"),
    }
}

#[test]
fn lower_pipe_into_call_prepends_argument() {
    let call = sp(
        Expr::FnCall {
            func: Box::new(ident("f", 13)),
            args: vec![covariant::ast::Arg { name: None, value: ident("b", 15), span: Span::new(15, 16) }],
        },
        13,
        17,
    );
    let (dag, errors) = lower(&let_file("x", pipe(ident("a", 8), call)));
    assert!(errors.is_empty());
    match dag.node(let_value(&dag)) {
        IrNode::FnCall { func, args } => {
            assert_eq!(*dag.node(*func), IrNode::Ident("f".to_string()));
            assert_eq!(args.len(), 2);
            assert_eq!(*dag.node(args[0].value), IrNode::Ident("a".to_string()));
            assert_eq!(*dag.node(args[1].value), IrNode::Ident("b".to_string()));
        }
        other => panic!("expected FnCall, got {other:?}"),
    }
}

#[test]
fn lower_pipe_chain_nests_left_first() {
    let chain = pipe(pipe(ident("a", 8), ident("f", 13)), ident("g", 18));
    let (dag, errors) = lower(&let_file("x", chain));
    assert!(errors.is_empty());
    match dag.node(let_value(&dag)) {
        IrNode::FnCall { func, args } => {
            assert_eq!(*dag.node(*func), IrNode::Ident("g".to_string()));
            assert_eq!(args.len(), 1);
            match dag.node(args[0].value) {
                IrNode::FnCall { func: inner, args: inner_args } => {
                    assert_eq!(*dag.node(*inner), IrNode::Ident("f".to_string()));
                    assert_eq!(inner_args.len(), 1);
                    assert_eq!(*dag.node(inner_args[0].value), IrNode::Ident("a".to_string()));
                }
                other => panic!("expected inner FnCall, got {other:?}"),
            }
        }
        other => panic!("expected FnCall, got {other:?}"),
    }
    for id in dag.ids() {
        assert!(!matches!(dag.node(id), IrNode::BinOp { .. }));
    }
}

#[test]
fn node_id_hash() {
    let mut set = std::collections::HashSet::new();
    set.insert(NodeId(0));
    set.insert(NodeId(1));
    set.insert(NodeId(0));
    assert_eq!(set.len(), 2);
}

#[test]
fn ir_node_data_construction() {
    let data = IrNodeData { node: IrNode::IntLit(42), span: Span::new(0, 2) };
    assert_eq!(data.node, IrNode::IntLit(42));
    assert_eq!(data.span, Span::new(0, 2));
}

#[test]
fn ir_node_variants() {
    let _lit = IrNode::IntLit(1);
    let _flt = IrNode::FloatLit(Decimal { mantissa: 1, scale: 0 });
    let _len = IrNode::LengthLit(Decimal { mantissa: 10, scale: 0 }, LengthUnit::Mm);
    let _ang = IrNode::AngleLit(Decimal { mantissa: 45, scale: 0 }, AngleUnit::Deg);
    let _boo = IrNode::BoolLit(true);
    let _str = IrNode::StringLit("hi".to_string());
    let _id = IrNode::Ident("x".to_string());
    let _list = IrNode::List(vec![]);
    let _enum = IrNode::EnumDef { name: Spanned::new("Color".to_string(), Span::new(0, 5)), variants: vec![] };
}
