use vstd::prelude::*;
use crate::span::{Span, Spanned};

verus! {

/// A parsed source file: its top-level statements in order.
#[derive(Debug)]
pub struct SourceFile {
    pub stmts: Vec<Spanned<Stmt>>,
    pub span: Span,
}

/// A statement.
#[derive(Debug)]
pub enum Stmt {
    Let(LetStmt),
    FnDef(FnDef),
    DataDef(DataDef),
    EnumDef(EnumDef),
    Expr(Spanned<Expr>),
}

/// `let name: ty = value`
#[derive(Debug)]
pub struct LetStmt {
    pub name: Spanned<String>,
    pub ty: Option<Spanned<Type>>,
    pub value: Spanned<Expr>,
}

/// `fn name(params) -> return_ty { body }`
#[derive(Debug)]
pub struct FnDef {
    pub name: Spanned<String>,
    pub params: Vec<Param>,
    pub return_ty: Option<Spanned<Type>>,
    pub body: Spanned<Expr>,
}

/// A parameter of a function or lambda, with an optional default.
#[derive(Debug)]
pub struct Param {
    pub name: Spanned<String>,
    pub ty: Option<Spanned<Type>>,
    pub default: Option<Spanned<Expr>>,
    pub span: Span,
}

/// `data Name { fields }`
#[derive(Debug)]
pub struct DataDef {
    pub name: Spanned<String>,
    pub fields: Vec<Field>,
}

/// A field of a data definition.
#[derive(Debug)]
pub struct Field {
    pub name: Spanned<String>,
    pub ty: Spanned<Type>,
    pub default: Option<Spanned<Expr>>,
    pub span: Span,
}

/// `enum Name { variants }`
#[derive(Debug)]
pub struct EnumDef {
    pub name: Spanned<String>,
    pub variants: Vec<Spanned<String>>,
}

/// A decimal number: `mantissa * 10^-scale` (`2.5` is 25 at scale 1; a
/// negative scale multiplies by a power of ten).
#[derive(Debug, Clone, Copy, PartialEq, Eq, Structural)]
pub struct Decimal {
    pub mantissa: u64,
    pub scale: i32,
}

/// An expression.
#[derive(Debug)]
pub enum Expr {
    IntLit(i64),
    FloatLit(Decimal),
    LengthLit(Decimal, LengthUnit),
    AngleLit(Decimal, AngleUnit),
    BoolLit(bool),
    StringLit(String),
    Ident(String),
    BinOp { lhs: Box<Spanned<Expr>>, op: Spanned<BinOpKind>, rhs: Box<Spanned<Expr>> },
    UnaryOp { op: Spanned<UnaryOpKind>, operand: Box<Spanned<Expr>> },
    FnCall { func: Box<Spanned<Expr>>, args: Vec<Arg> },
    FieldAccess { object: Box<Spanned<Expr>>, field: Spanned<String> },
    Lambda { params: Vec<Param>, body: Box<Spanned<Expr>> },
    List(Vec<Spanned<Expr>>),
    If {
        cond: Box<Spanned<Expr>>,
        then_branch: Box<Spanned<Expr>>,
        else_branch: Option<Box<Spanned<Expr>>>,
    },
    Match { subject: Box<Spanned<Expr>>, arms: Vec<MatchArm> },
    DataConstructor { name: Spanned<String>, fields: Vec<FieldInit> },
    WithUpdate { base: Box<Spanned<Expr>>, updates: Vec<FieldInit> },
    Block { stmts: Vec<Spanned<Stmt>>, tail: Option<Box<Spanned<Expr>>> },
    /// A parenthesized expression.
    Grouped(Box<Spanned<Expr>>),
}

/// A call argument, positional or named.
#[derive(Debug)]
pub struct Arg {
    pub name: Option<Spanned<String>>,
    pub value: Spanned<Expr>,
    pub span: Span,
}

/// `name = value` in a data constructor or a with-update.
#[derive(Debug)]
pub struct FieldInit {
    pub name: Spanned<String>,
    pub value: Spanned<Expr>,
    pub span: Span,
}

/// `pattern => body`
#[derive(Debug)]
pub struct MatchArm {
    pub pattern: Spanned<Pattern>,
    pub body: Spanned<Expr>,
    pub span: Span,
}

/// A match pattern.
#[derive(Debug)]
pub enum Pattern {
    Ident(String),
    Wildcard,
    Literal(Box<Spanned<Expr>>),
}

/// Binary operators; `Pipe` is `|>`.
#[derive(Debug, Clone, Copy, PartialEq, Eq, Structural)]
pub enum BinOpKind {
    Add,
    Sub,
    Mul,
    Div,
    Eq,
    Neq,
    Lt,
    Leq,
    Gt,
    Geq,
    And,
    Or,
    Pipe,
}

/// Prefix operators: `-` and `!`.
#[derive(Debug, Clone, Copy, PartialEq, Eq, Structural)]
pub enum UnaryOpKind {
    Neg,
    Not,
}

/// Length units.
#[derive(Debug, Clone, Copy, PartialEq, Eq, Structural)]
pub enum LengthUnit {
    Mm,
    Cm,
    M,
    In,
}

/// Angle units.
#[derive(Debug, Clone, Copy, PartialEq, Eq, Structural)]
pub enum AngleUnit {
    Deg,
    Rad,
}

/// A type annotation.
#[derive(Debug, PartialEq)]
pub enum Type {
    Named(String),
    List(Box<Spanned<Type>>),
    Fn { params: Vec<Spanned<Type>>, ret: Box<Spanned<Type>> },
}

/// A copy of a spanned name.
pub(crate) fn copy_name(n: &Spanned<String>) -> (r: Spanned<String>)
    ensures
        r == *n,
{
    Spanned { node: n.node.clone(), span: n.span }
}

/// A copy of a type annotation.
pub(crate) fn copy_type(t: &Spanned<Type>) -> (r: Spanned<Type>)
    ensures
        r.span == t.span,
        t.node is Named ==> r.node == t.node,
        t.node is List ==> r.node is List,
        t.node is Fn ==> r.node is Fn,
    decreases t,
{
    let node = match &t.node {
        Type::Named(n) => Type::Named(n.clone()),
        Type::List(inner) => Type::List(Box::new(copy_type(inner))),
        Type::Fn { params, ret } => {
            let mut ps: Vec<Spanned<Type>> = Vec::new();
            let mut i: usize = 0;
            while i < params.len()
                invariant
                    i <= params@.len(),
                    ps@.len() == i,
                    t.node is Fn,
                    t.node->Fn_params == *params,
                decreases params@.len() - i,
            {
                proof {
                    assert(decreases_to!(*t => t.node));
                    assert(decreases_to!(t.node => t.node->Fn_params));
                    assert(decreases_to!(*params => params@));
                    assert(decreases_to!(params@ => params@[i as int]));
                }
                ps.push(copy_type(&params[i]));
                i = i + 1;
            }
            Type::Fn { params: ps, ret: Box::new(copy_type(ret)) }
        },
    };
    Spanned { node, span: t.span }
}

/// A copy of an optional type annotation.
pub(crate) fn copy_opt_type(t: &Option<Spanned<Type>>) -> (r: Option<Spanned<Type>>)
    ensures
        r is Some <==> t is Some,
{
    match t {
        Some(t) => Some(copy_type(t)),
        None => None,
    }
}

} // verus!
