use covariant::arith::{int_binop, IntValue};
use covariant::ast::BinOpKind;
use covariant::call::{resolve_args, ArgSource, ArityError, FnParam};
use covariant::eval_error::EvalErrorKind;
use covariant::ir::{IrArg, NodeId};
use covariant::span::{Span, Spanned};

fn param(name: &str, default: Option<u32>) -> FnParam {
    FnParam { name: name.to_string(), default: default.map(NodeId) }
}

fn positional(value: u32) -> IrArg {
    IrArg { name: None, value: NodeId(value), span: Span::new(0, 1) }
}

fn named(name: &str, value: u32) -> IrArg {
    IrArg { name: Some(Spanned::new(name.to_string(), Span::new(0, 1))), value: NodeId(value), span: Span::new(0, 1) }
}

#[test]
fn two_positional_for_one_parameter_is_arity_error() {
    let params = vec![param("x", None)];
    let args = vec![positional(0), positional(1)];
    assert_eq!(resolve_args(&params, &args), Err(ArityError::TooMany(1)));
}

#[test]
fn omitted_parameter_takes_default() {
    let params = vec![param("x", None), param("y", Some(9))];
    let args = vec![positional(0)];
    assert_eq!(resolve_args(&params, &args), Ok(vec![ArgSource::Arg(0), ArgSource::Default(NodeId(9))]));
}

#[test]
fn named_argument_goes_to_its_parameter() {
    let params = vec![param("a", None), param("b", None)];
    let args = vec![named("b", 0), positional(1)];
    assert_eq!(resolve_args(&params, &args), Ok(vec![ArgSource::Arg(1), ArgSource::Arg(0)]));
}

#[test]
fn unknown_name_is_arity_error() {
    let params = vec![param("a", None)];
    let args = vec![named("zz", 0)];
    assert_eq!(resolve_args(&params, &args), Err(ArityError::UnknownName(0)));
}

#[test]
fn missing_argument_without_default() {
    let params = vec![param("a", Some(3)), param("b", None)];
    let args: Vec<IrArg> = vec![];
    assert_eq!(resolve_args(&params, &args), Err(ArityError::Missing(1)));
}

#[test]
fn integer_division_by_zero_is_reported() {
    assert_eq!(int_binop(BinOpKind::Div, 7, 0), Err(EvalErrorKind::DivisionByZero));
    assert_eq!(int_binop(BinOpKind::Div, -7, 2), Ok(IntValue::Int(-3)));
    assert_eq!(int_binop(BinOpKind::Add, 1, 2), Ok(IntValue::Int(3)));
    assert_eq!(int_binop(BinOpKind::Mul, 5, 2), Ok(IntValue::Int(10)));
    assert_eq!(int_binop(BinOpKind::Add, i64::MAX, 1), Err(EvalErrorKind::Custom));
    assert_eq!(int_binop(BinOpKind::Div, i64::MIN, -1), Err(EvalErrorKind::Custom));
    assert_eq!(int_binop(BinOpKind::Lt, 1, 2), Ok(IntValue::Bool(true)));
    assert_eq!(int_binop(BinOpKind::And, 1, 2), Err(EvalErrorKind::TypeError));
}
