use vstd::prelude::*;
use crate::ast::{
    Arg, BinOpKind, Expr, Field, FieldInit, MatchArm, Param, Pattern, SourceFile, Stmt, copy_name,
    copy_opt_type, copy_type,
};
use crate::ir::{
    Dag, IrArg, IrError, IrErrorKind, IrField, IrFieldInit, IrMatchArm, IrNode, IrNodeData, IrParam,
    IrPattern, NodeId, args_below, arms_below, fields_below, ids_below, inits_below, is_pipe,
    params_below, refs_below,
};
use crate::span::{Span, Spanned};

verus! {

/// Node `id` of `nodes` is the lowering of `e`: each expression becomes
/// the node of the same kind, with the same literal, names and operators
/// and with its operands lowered in order; a parenthesized expression is
/// its inner expression, with no node of its own; `a |> f` is the call
/// `f(a)` and `a |> f(b, ..)` the call `f(a, b, ..)`, the piped value first
/// and unnamed. (Type annotations are copied and not described here.)
pub open spec fn denotes(nodes: Seq<IrNodeData>, id: NodeId, e: Expr) -> bool
    decreases e,
{
    &&& id.0 < nodes.len()
    &&& match e {
        Expr::IntLit(v) => nodes[id.0 as int].node == IrNode::IntLit(v),
        Expr::FloatLit(v) => nodes[id.0 as int].node == IrNode::FloatLit(v),
        Expr::LengthLit(v, u) => nodes[id.0 as int].node == IrNode::LengthLit(v, u),
        Expr::AngleLit(v, u) => nodes[id.0 as int].node == IrNode::AngleLit(v, u),
        Expr::BoolLit(v) => nodes[id.0 as int].node == IrNode::BoolLit(v),
        Expr::StringLit(v) => nodes[id.0 as int].node == IrNode::StringLit(v),
        Expr::Ident(n) => nodes[id.0 as int].node == IrNode::Ident(n),
        Expr::UnaryOp { op, operand } => match nodes[id.0 as int].node {
            IrNode::UnaryOp { op: o, operand: x } => o.node == op.node && denotes(nodes, x, operand.node),
            _ => false,
        },
        Expr::FieldAccess { object, field } => match nodes[id.0 as int].node {
            IrNode::FieldAccess { object: x, field: f } => f == field && denotes(nodes, x, object.node),
            _ => false,
        },
        Expr::List(items) => match nodes[id.0 as int].node {
            IrNode::List(ids) => {
                &&& ids@.len() == items@.len()
                &&& forall|i: int| 0 <= i < items@.len() ==> denotes(nodes, #[trigger] ids@[i], items@[i].node)
            },
            _ => false,
        },
        Expr::Lambda { params, body } => match nodes[id.0 as int].node {
            IrNode::Lambda { params: p, body: b } => {
                &&& denotes(nodes, b, body.node)
                &&& p@.len() == params@.len()
                &&& forall|i: int| 0 <= i < params@.len() ==> (#[trigger] p@[i]).name == params@[i].name && match (params@[i].default, p@[i].default) {
                    (Some(d), Some(x)) => denotes(nodes, x, d.node),
                    (None, None) => true,
                    _ => false,
                }
            },
            _ => false,
        },
        Expr::DataConstructor { name, fields } => match nodes[id.0 as int].node {
            IrNode::DataConstructor { name: n, fields: f } => {
                &&& n == name
                &&& f@.len() == fields@.len()
                &&& forall|i: int| 0 <= i < fields@.len() ==> #[trigger] f@[i].name == fields@[i].name
                &&& forall|i: int| 0 <= i < fields@.len() ==> denotes(nodes, #[trigger] f@[i].value, fields@[i].value.node)
            },
            _ => false,
        },
        Expr::WithUpdate { base, updates } => match nodes[id.0 as int].node {
            IrNode::WithUpdate { base: b, updates: u } => {
                &&& denotes(nodes, b, base.node)
                &&& u@.len() == updates@.len()
                &&& forall|i: int| 0 <= i < updates@.len() ==> #[trigger] u@[i].name == updates@[i].name
                &&& forall|i: int| 0 <= i < updates@.len() ==> denotes(nodes, #[trigger] u@[i].value, updates@[i].value.node)
            },
            _ => false,
        },
        Expr::Match { subject, arms } => match nodes[id.0 as int].node {
            IrNode::Match { subject: x, arms: a } => {
                &&& denotes(nodes, x, subject.node)
                &&& a@.len() == arms@.len()
                &&& forall|i: int| 0 <= i < arms@.len() ==> denotes(nodes, #[trigger] a@[i].body, arms@[i].body.node)
                &&& forall|i: int| 0 <= i < arms@.len() ==> match (#[trigger] a@[i].pattern.node, arms@[i].pattern.node) {
                    (IrPattern::Ident(m), Pattern::Ident(n)) => m == n,
                    (IrPattern::Wildcard, Pattern::Wildcard) => true,
                    (IrPattern::Literal(l), Pattern::Literal(lit)) => denotes(nodes, l, lit.node),
                    _ => false,
                }
            },
            _ => false,
        },
        Expr::Block { stmts, tail } => match nodes[id.0 as int].node {
            IrNode::Block { stmts: ss, tail: t } => {
                &&& ss@.len() == stmts@.len()
                &&& forall|i: int| 0 <= i < stmts@.len() ==> stmt_denotes(nodes, #[trigger] ss@[i], stmts@[i].node)
                &&& match tail {
                    Some(x) => t matches Some(y) && denotes(nodes, y, x.node),
                    None => t is None,
                }
            },
            _ => false,
        },
        Expr::If { cond, then_branch, else_branch } => match nodes[id.0 as int].node {
            IrNode::If { cond: c, then_branch: t, else_branch: e } => {
                &&& denotes(nodes, c, cond.node)
                &&& denotes(nodes, t, then_branch.node)
                &&& match else_branch {
                    Some(x) => e matches Some(y) && denotes(nodes, y, x.node),
                    None => e is None,
                }
            },
            _ => false,
        },
        Expr::Grouped(inner) => denotes(nodes, id, inner.node),
        Expr::BinOp { lhs, op, rhs } => if op.node == BinOpKind::Pipe {
            match rhs.node {
                Expr::FnCall { func, args } => match nodes[id.0 as int].node {
                    IrNode::FnCall { func: f, args: a } => {
                        &&& a@.len() == args@.len() + 1
                        &&& a@[0].name is None
                        &&& denotes(nodes, a@[0].value, lhs.node)
                        &&& denotes(nodes, f, func.node)
                        &&& forall|i: int| 0 <= i < args@.len() ==> #[trigger] a@[i + 1].name == args@[i].name
                        &&& forall|i: int| 0 <= i < args@.len() ==> denotes(nodes, #[trigger] a@[i + 1].value, args@[i].value.node)
                    },
                    _ => false,
                },
                _ => match nodes[id.0 as int].node {
                    IrNode::FnCall { func: f, args: a } => {
                        &&& a@.len() == 1
                        &&& a@[0].name is None
                        &&& denotes(nodes, a@[0].value, lhs.node)
                        &&& denotes(nodes, f, rhs.node)
                    },
                    _ => false,
                },
            }
        } else {
            match nodes[id.0 as int].node {
                IrNode::BinOp { lhs: l, op: o, rhs: r } => {
                    &&& o.node == op.node
                    &&& denotes(nodes, l, lhs.node)
                    &&& denotes(nodes, r, rhs.node)
                },
                _ => false,
            }
        },
        Expr::FnCall { func, args } => match nodes[id.0 as int].node {
            IrNode::FnCall { func: f, args: a } => {
                &&& a@.len() == args@.len()
                &&& denotes(nodes, f, func.node)
                &&& forall|i: int| 0 <= i < args@.len() ==> #[trigger] a@[i].name == args@[i].name
                &&& forall|i: int| 0 <= i < args@.len() ==> denotes(nodes, #[trigger] a@[i].value, args@[i].value.node)
            },
            _ => false,
        },
    }
}

/// `new` keeps every node of `old` where it was.
pub open spec fn extends(new: Seq<IrNodeData>, old: Seq<IrNodeData>) -> bool {
    &&& old.len() <= new.len()
    &&& forall|i: int| 0 <= i < old.len() ==> #[trigger] new[i] == old[i]
}

/// A root is the lowering of its statement: an expression statement as
/// `denotes` says; a definition as the node of the same kind, with the
/// same names, and with its bound expression, body and defaults lowered.
pub open spec fn stmt_denotes(nodes: Seq<IrNodeData>, id: NodeId, s: Stmt) -> bool
    decreases s,
{
    &&& id.0 < nodes.len()
    &&& match s {
        Stmt::Expr(e) => denotes(nodes, id, e.node),
        Stmt::Let(l) => match nodes[id.0 as int].node {
            IrNode::Let { name, value, .. } => name == l.name && denotes(nodes, value, l.value.node),
            _ => false,
        },
        Stmt::FnDef(f) => match nodes[id.0 as int].node {
            IrNode::FnDef { name, params: p, body, .. } => {
                &&& name == f.name
                &&& denotes(nodes, body, f.body.node)
                &&& p@.len() == f.params@.len()
                &&& forall|i: int| 0 <= i < f.params@.len() ==> (#[trigger] p@[i]).name == f.params@[i].name && match (f.params@[i].default, p@[i].default) {
                    (Some(d), Some(x)) => denotes(nodes, x, d.node),
                    (None, None) => true,
                    _ => false,
                }
            },
            _ => false,
        },
        Stmt::DataDef(d) => match nodes[id.0 as int].node {
            IrNode::DataDef { name, fields: fs } => {
                &&& name == d.name
                &&& fs@.len() == d.fields@.len()
                &&& forall|i: int| 0 <= i < d.fields@.len() ==> (#[trigger] fs@[i]).name == d.fields@[i].name && match (d.fields@[i].default, fs@[i].default) {
                    (Some(d), Some(x)) => denotes(nodes, x, d.node),
                    (None, None) => true,
                    _ => false,
                }
            },
            _ => false,
        },
        Stmt::EnumDef(e) => match nodes[id.0 as int].node {
            IrNode::EnumDef { name, variants } => name == e.name && variants@ == e.variants@,
            _ => false,
        },
    }
}

/// What a root denotes stays so as more nodes are appended.
proof fn lemma_stmt_denotes_extend(nodes: Seq<IrNodeData>, more: Seq<IrNodeData>, id: NodeId, st: Stmt)
    requires
        stmt_denotes(nodes, id, st),
        extends(more, nodes),
    ensures
        stmt_denotes(more, id, st),
    decreases st,
{
    assert(more[id.0 as int] == nodes[id.0 as int]);
    match st {
        Stmt::Expr(e) => lemma_denotes_extend(nodes, more, id, e.node),
        Stmt::FnDef(f) => {
            if let IrNode::FnDef { params: p, body, .. } = nodes[id.0 as int].node {
                lemma_denotes_extend(nodes, more, body, f.body.node);
                assert forall|i: int| 0 <= i < f.params@.len() implies (#[trigger] p@[i]).name == f.params@[i].name && match (f.params@[i].default, p@[i].default) {
                    (Some(d), Some(x)) => denotes(more, x, d.node),
                    (None, None) => true,
                    _ => false,
                } by {
                    if let (Some(d), Some(x)) = (f.params@[i].default, p@[i].default) {
                        lemma_denotes_extend(nodes, more, x, d.node);
                    }
                }
            }
        },
        Stmt::DataDef(d) => {
            if let IrNode::DataDef { fields: fs, .. } = nodes[id.0 as int].node {
                assert forall|i: int| 0 <= i < d.fields@.len() implies (#[trigger] fs@[i]).name == d.fields@[i].name && match (d.fields@[i].default, fs@[i].default) {
                    (Some(d), Some(x)) => denotes(more, x, d.node),
                    (None, None) => true,
                    _ => false,
                } by {
                    if let (Some(d), Some(x)) = (d.fields@[i].default, fs@[i].default) {
                        lemma_denotes_extend(nodes, more, x, d.node);
                    }
                }
            }
        },
        Stmt::Let(l) => {
            if let IrNode::Let { value, .. } = nodes[id.0 as int].node {
                lemma_denotes_extend(nodes, more, value, l.value.node);
            }
        },
        _ => {},
    }
}

/// Chained pipes associate to the left: wherever `a |> f |> g` is lowered,
/// the node means exactly what the lowering of `g(f(a))` means, for any
/// `f` and `g` that are not themselves calls (a call on the right of `|>`
/// takes the piped value as its first argument instead).
pub proof fn lemma_pipe_chain(
    nodes: Seq<IrNodeData>,
    id: NodeId,
    a: Expr,
    f: Expr,
    g: Expr,
    chain: Expr,
    nested: Expr,
)
    requires
        !(f is FnCall),
        !(g is FnCall),
        chain matches Expr::BinOp { lhs: inner, op: op2, rhs: g2 } && op2.node == BinOpKind::Pipe
            && g2.node == g && (inner.node matches Expr::BinOp { lhs: a1, op: op1, rhs: f1 } && op1.node
            == BinOpKind::Pipe && a1.node == a && f1.node == f),
        nested matches Expr::FnCall { func: g3, args: outer } && g3.node == g && outer@.len() == 1
            && outer@[0].name is None && (outer@[0].value.node matches Expr::FnCall { func: f3, args: inner_args }
            && f3.node == f && inner_args@.len() == 1 && inner_args@[0].name is None
            && inner_args@[0].value.node == a),
    ensures
        denotes(nodes, id, chain) == denotes(nodes, id, nested),
{
    reveal_with_fuel(denotes, 3);
}

/// What a node denotes stays so as more nodes are appended.
proof fn lemma_denotes_extend(nodes: Seq<IrNodeData>, more: Seq<IrNodeData>, id: NodeId, e: Expr)
    requires
        denotes(nodes, id, e),
        extends(more, nodes),
    ensures
        denotes(more, id, e),
    decreases e,
{
    assert(more[id.0 as int] == nodes[id.0 as int]);
    match e {
        Expr::Grouped(inner) => {
            lemma_denotes_extend(nodes, more, id, inner.node);
        },
        Expr::UnaryOp { operand, .. } => {
            if let IrNode::UnaryOp { operand: x, .. } = nodes[id.0 as int].node {
                lemma_denotes_extend(nodes, more, x, operand.node);
            }
        },
        Expr::FieldAccess { object, .. } => {
            if let IrNode::FieldAccess { object: x, .. } = nodes[id.0 as int].node {
                lemma_denotes_extend(nodes, more, x, object.node);
            }
        },
        Expr::List(items) => {
            if let IrNode::List(ids) = nodes[id.0 as int].node {
                assert forall|i: int| 0 <= i < items@.len() implies denotes(more, #[trigger] ids@[i], items@[i].node) by {
                    lemma_denotes_extend(nodes, more, ids@[i], items@[i].node);
                }
            }
        },
        Expr::Lambda { params, body } => {
            if let IrNode::Lambda { params: p, body: b } = nodes[id.0 as int].node {
                lemma_denotes_extend(nodes, more, b, body.node);
                assert forall|i: int| 0 <= i < params@.len() implies (#[trigger] p@[i]).name == params@[i].name && match (params@[i].default, p@[i].default) {
                    (Some(d), Some(x)) => denotes(more, x, d.node),
                    (None, None) => true,
                    _ => false,
                } by {
                    if let (Some(d), Some(x)) = (params@[i].default, p@[i].default) {
                        lemma_denotes_extend(nodes, more, x, d.node);
                    }
                }
            }
        },
        Expr::DataConstructor { fields, .. } => {
            if let IrNode::DataConstructor { fields: f, .. } = nodes[id.0 as int].node {
                assert forall|i: int| 0 <= i < fields@.len() implies denotes(more, #[trigger] f@[i].value, fields@[i].value.node) by {
                    lemma_denotes_extend(nodes, more, f@[i].value, fields@[i].value.node);
                }
            }
        },
        Expr::WithUpdate { base, updates } => {
            if let IrNode::WithUpdate { base: b, updates: u } = nodes[id.0 as int].node {
                lemma_denotes_extend(nodes, more, b, base.node);
                assert forall|i: int| 0 <= i < updates@.len() implies denotes(more, #[trigger] u@[i].value, updates@[i].value.node) by {
                    lemma_denotes_extend(nodes, more, u@[i].value, updates@[i].value.node);
                }
            }
        },
        Expr::Match { subject, arms } => {
            if let IrNode::Match { subject: x, arms: a } = nodes[id.0 as int].node {
                lemma_denotes_extend(nodes, more, x, subject.node);
                assert forall|i: int| 0 <= i < arms@.len() implies denotes(more, #[trigger] a@[i].body, arms@[i].body.node) by {
                    lemma_denotes_extend(nodes, more, a@[i].body, arms@[i].body.node);
                }
                assert forall|i: int| 0 <= i < arms@.len() implies match (#[trigger] a@[i].pattern.node, arms@[i].pattern.node) {
                    (IrPattern::Ident(m), Pattern::Ident(n)) => m == n,
                    (IrPattern::Wildcard, Pattern::Wildcard) => true,
                    (IrPattern::Literal(l), Pattern::Literal(lit)) => denotes(more, l, lit.node),
                    _ => false,
                } by {
                    if let (IrPattern::Literal(l), Pattern::Literal(lit)) = (a@[i].pattern.node, arms@[i].pattern.node) {
                        lemma_denotes_extend(nodes, more, l, lit.node);
                    }
                }
            }
        },
        Expr::Block { stmts, tail } => {
            if let IrNode::Block { stmts: ss, tail: t } = nodes[id.0 as int].node {
                assert forall|i: int| 0 <= i < stmts@.len() implies stmt_denotes(more, #[trigger] ss@[i], stmts@[i].node) by {
                    lemma_stmt_denotes_extend(nodes, more, ss@[i], stmts@[i].node);
                }
                if let Some(x) = tail {
                    if let Some(y) = t {
                        lemma_denotes_extend(nodes, more, y, x.node);
                    }
                }
            }
        },
        Expr::If { cond, then_branch, else_branch } => {
            if let IrNode::If { cond: c, then_branch: t, else_branch: eb } = nodes[id.0 as int].node {
                lemma_denotes_extend(nodes, more, c, cond.node);
                lemma_denotes_extend(nodes, more, t, then_branch.node);
                if let Some(x) = else_branch {
                    if let Some(y) = eb {
                        lemma_denotes_extend(nodes, more, y, x.node);
                    }
                }
            }
        },
        Expr::BinOp { lhs, op, rhs } => {
            if op.node == BinOpKind::Pipe {
                match rhs.node {
                    Expr::FnCall { func, args } => {
                        if let IrNode::FnCall { func: f, args: a } = nodes[id.0 as int].node {
                            lemma_denotes_extend(nodes, more, a@[0].value, lhs.node);
                            lemma_denotes_extend(nodes, more, f, func.node);
                            assert forall|i: int| 0 <= i < args@.len() implies denotes(
                                more,
                                #[trigger] a@[i + 1].value,
                                args@[i].value.node,
                            ) by {
                                lemma_denotes_extend(nodes, more, a@[i + 1].value, args@[i].value.node);
                            }
                        }
                    },
                    _ => {
                        if let IrNode::FnCall { func: f, args: a } = nodes[id.0 as int].node {
                            lemma_denotes_extend(nodes, more, a@[0].value, lhs.node);
                            lemma_denotes_extend(nodes, more, f, rhs.node);
                        }
                    },
                }
            } else {
                if let IrNode::BinOp { lhs: l, rhs: r, .. } = nodes[id.0 as int].node {
                    lemma_denotes_extend(nodes, more, l, lhs.node);
                    lemma_denotes_extend(nodes, more, r, rhs.node);
                }
            }
        },
        Expr::FnCall { func, args } => {
            if let IrNode::FnCall { func: f, args: a } = nodes[id.0 as int].node {
                lemma_denotes_extend(nodes, more, f, func.node);
                assert forall|i: int| 0 <= i < args@.len() implies denotes(
                    more,
                    #[trigger] a@[i].value,
                    args@[i].value.node,
                ) by {
                    lemma_denotes_extend(nodes, more, a@[i].value, args@[i].value.node);
                }
            }
        },
        _ => {},
    }
}

/// What `lower` returns for `source`: a well-formed arena with no pipe
/// node and one root per statement; an error only when the arena is full;
/// and, without one, roots in increasing order, each the lowering of its
/// statement.
pub open spec fn lowered(source: SourceFile, dag: Dag, errs: Seq<IrError>) -> bool {
    &&& dag.wf()
    &&& forall|i: int| 0 <= i < dag.nodes().len() ==> !is_pipe(#[trigger] dag.nodes()[i].node)
    &&& dag.root_ids().len() == source.stmts@.len()
    &&& errs.len() <= 1
    &&& errs.len() > 0 ==> dag.nodes().len() == u32::MAX
    &&& errs.len() == 0 ==> forall|i: int, j: int| 0 <= i < j < source.stmts@.len() ==> (#[trigger] dag.root_ids()[i]).0 < (#[trigger] dag.root_ids()[j]).0
    &&& errs.len() == 0 ==> forall|i: int| 0 <= i < source.stmts@.len() ==> stmt_denotes(
        dag.nodes(),
        #[trigger] dag.root_ids()[i],
        source.stmts@[i].node,
    )
}

/// Lowers a parsed file into an IR arena, one root per top-level statement
/// in source order, each the lowering of its statement (`stmt_denotes`).
/// A parenthesized expression leaves no node of its own, and `a |> f(b)`
/// becomes the call `f(a, b)`, so no node of the result is a pipe. The one
/// error is an arena too large for node ids.
pub fn lower(source: &SourceFile) -> (r: (Dag, Vec<IrError>))
    ensures
        lowered(*source, r.0, r.1@),
{
    let mut ctx = LowerCtx { dag: Dag::new(), errors: Vec::new() };
    let mut roots: Vec<NodeId> = Vec::new();
    let mut i: usize = 0;
    while i < source.stmts.len()
        invariant
            ctx.wf(),
            i <= source.stmts@.len(),
            roots@.len() == i,
            ids_below(roots@, ctx.dag.nodes().len() as int),
            ctx.clean() ==> forall|k: int, l: int| 0 <= k < l < i ==> (#[trigger] roots@[k]).0 < (#[trigger] roots@[l]).0,
            ctx.clean() && i > 0 ==> roots@[i - 1].0 + 1 == ctx.dag.nodes().len(),
            ctx.clean() ==> forall|k: int| 0 <= k < i ==> stmt_denotes(
                ctx.dag.nodes(),
                #[trigger] roots@[k],
                source.stmts@[k].node,
            ),
        decreases source.stmts@.len() - i,
    {
        let ghost n0 = ctx.dag.nodes();
        let ghost before = roots@;
        let id = ctx.lower_stmt(&source.stmts[i]);
        roots.push(id);
        proof {
            if ctx.clean() {
                assert forall|k: int| 0 <= k < i implies stmt_denotes(
                    ctx.dag.nodes(),
                    #[trigger] roots@[k],
                    source.stmts@[k].node,
                ) by {
                    assert(roots@[k] == before[k]);
                    lemma_stmt_denotes_extend(n0, ctx.dag.nodes(), before[k], source.stmts@[k].node);
                }
            }
        }
        i = i + 1;
    }
    ctx.dag.set_roots(roots);
    (ctx.dag, ctx.errors)
}

struct LowerCtx {
    dag: Dag,
    errors: Vec<IrError>,
}

impl LowerCtx {
    spec fn wf(&self) -> bool {
        &&& self.dag.wf()
        &&& self.errors@.len() <= 1
        &&& !self.clean() ==> self.dag.nodes().len() == u32::MAX
    }

    /// Nodes are only appended, and errors only added.
    spec fn grew(&self, before: &Self) -> bool {
        &&& extends(self.dag.nodes(), before.dag.nodes())
        &&& before.errors@.len() <= self.errors@.len()
    }

    /// No error so far: every node is what lowering meant it to be.
    spec fn clean(&self) -> bool {
        self.errors@.len() == 0
    }

    /// Inserts a node; once the arena is full, reports that once and
    /// hands back the first node instead.
    fn insert(&mut self, node: IrNode, span: Span) -> (id: NodeId)
        requires
            old(self).wf(),
            refs_below(node, old(self).dag.nodes().len() as int),
            !is_pipe(node),
        ensures
            final(self).wf(),
            final(self).grew(old(self)),
            id.0 < final(self).dag.nodes().len(),
            final(self).clean() ==> final(self).dag.nodes() == old(self).dag.nodes().push(
                IrNodeData { node, span },
            ) && id.0 == old(self).dag.nodes().len(),
    {
        if self.dag.len() < 4294967295 {
            self.dag.insert(node, span)
        } else {
            if self.errors.len() == 0 {
                self.errors.push(
                    IrError::new("program too large for the IR arena", span, IrErrorKind::Unsupported),
                );
            }
            NodeId(0)
        }
    }

    fn lower_stmt(&mut self, stmt: &Spanned<Stmt>) -> (id: NodeId)
        requires
            old(self).wf(),
        ensures
            final(self).wf(),
            final(self).grew(old(self)),
            id.0 < final(self).dag.nodes().len(),
            final(self).clean() ==> id.0 + 1 == final(self).dag.nodes().len() && old(self).dag.nodes().len() <= id.0,
            final(self).clean() ==> stmt_denotes(final(self).dag.nodes(), id, stmt.node),
        decreases stmt, 1int,
    {
        let span = stmt.span;
        match &stmt.node {
            Stmt::Let(let_stmt) => {
                let value = self.lower_expr(&let_stmt.value);
                let ghost n1 = self.dag.nodes();
                let node = IrNode::Let {
                    name: copy_name(&let_stmt.name),
                    ty: copy_opt_type(&let_stmt.ty),
                    value,
                };
                let id = self.insert(node, span);
                proof {
                    if self.clean() {
                        lemma_denotes_extend(n1, self.dag.nodes(), value, let_stmt.value.node);
                    }
                }
                id
            },
            Stmt::FnDef(fn_def) => {
                let params = self.lower_params(&fn_def.params);
                let ghost n1 = self.dag.nodes();
                let ghost p = params@;
                let body = self.lower_expr(&fn_def.body);
                let ghost n2 = self.dag.nodes();
                let node = IrNode::FnDef {
                    name: copy_name(&fn_def.name),
                    params,
                    return_ty: copy_opt_type(&fn_def.return_ty),
                    body,
                };
                let id = self.insert(node, span);
                proof {
                    if self.clean() {
                        lemma_denotes_extend(n2, self.dag.nodes(), body, fn_def.body.node);
                        assert forall|i: int| 0 <= i < fn_def.params@.len() implies (#[trigger] p[i]).name == fn_def.params@[i].name && match (fn_def.params@[i].default, p[i].default) {
                            (Some(d), Some(x)) => denotes(self.dag.nodes(), x, d.node),
                            (None, None) => true,
                            _ => false,
                        } by {
                            if let (Some(d), Some(x)) = (fn_def.params@[i].default, p[i].default) {
                                lemma_denotes_extend(n1, self.dag.nodes(), x, d.node);
                            }
                        }
                    }
                }
                id
            },
            Stmt::DataDef(data_def) => {
                let fields = self.lower_fields(&data_def.fields);
                let ghost n1 = self.dag.nodes();
                let ghost fs = fields@;
                let node = IrNode::DataDef { name: copy_name(&data_def.name), fields };
                let id = self.insert(node, span);
                proof {
                    if self.clean() {
                        assert forall|i: int| 0 <= i < data_def.fields@.len() implies (#[trigger] fs[i]).name == data_def.fields@[i].name && match (data_def.fields@[i].default, fs[i].default) {
                            (Some(d), Some(x)) => denotes(self.dag.nodes(), x, d.node),
                            (None, None) => true,
                            _ => false,
                        } by {
                            if let (Some(d), Some(x)) = (data_def.fields@[i].default, fs[i].default) {
                                lemma_denotes_extend(n1, self.dag.nodes(), x, d.node);
                            }
                        }
                    }
                }
                id
            },
            Stmt::EnumDef(enum_def) => {
                let mut variants: Vec<Spanned<String>> = Vec::new();
                let mut i: usize = 0;
                while i < enum_def.variants.len()
                    invariant
                        i <= enum_def.variants@.len(),
                        variants@ == enum_def.variants@.take(i as int),
                    decreases enum_def.variants@.len() - i,
                {
                    variants.push(copy_name(&enum_def.variants[i]));
                    proof {
                        assert(enum_def.variants@.take(i + 1) =~= enum_def.variants@.take(i as int).push(enum_def.variants@[i as int]));
                    }
                    i = i + 1;
                }
                proof {
                    assert(enum_def.variants@.take(i as int) =~= enum_def.variants@);
                }
                let node = IrNode::EnumDef { name: copy_name(&enum_def.name), variants };
                self.insert(node, span)
            },
            Stmt::Expr(expr) => self.lower_expr(expr),
        }
    }

    fn lower_expr(&mut self, expr: &Spanned<Expr>) -> (id: NodeId)
        requires
            old(self).wf(),
        ensures
            final(self).wf(),
            final(self).grew(old(self)),
            id.0 < final(self).dag.nodes().len(),
            final(self).clean() ==> id.0 + 1 == final(self).dag.nodes().len() && old(self).dag.nodes().len() <= id.0,
            final(self).clean() ==> denotes(final(self).dag.nodes(), id, expr.node),
        decreases expr, 1int,
    {
        let span = expr.span;
        match &expr.node {
            Expr::IntLit(v) => self.insert(IrNode::IntLit(*v), span),
            Expr::FloatLit(v) => self.insert(IrNode::FloatLit(*v), span),
            Expr::LengthLit(v, u) => self.insert(IrNode::LengthLit(*v, *u), span),
            Expr::AngleLit(v, u) => self.insert(IrNode::AngleLit(*v, *u), span),
            Expr::BoolLit(v) => self.insert(IrNode::BoolLit(*v), span),
            Expr::StringLit(v) => self.insert(IrNode::StringLit(v.clone()), span),
            Expr::Ident(name) => self.insert(IrNode::Ident(name.clone()), span),
            Expr::BinOp { lhs, op, rhs } => {
                if op.node == BinOpKind::Pipe {
                    self.lower_pipe(expr)
                } else {
                    let lhs_id = self.lower_expr(lhs);
                    let ghost n1 = self.dag.nodes();
                    let rhs_id = self.lower_expr(rhs);
                    let ghost n2 = self.dag.nodes();
                    let node = IrNode::BinOp { lhs: lhs_id, op: Spanned { node: op.node, span: op.span }, rhs: rhs_id };
                    let id = self.insert(node, span);
                    proof {
                        if self.clean() {
                            lemma_denotes_extend(n1, self.dag.nodes(), lhs_id, lhs.node);
                            lemma_denotes_extend(n2, self.dag.nodes(), rhs_id, rhs.node);
                        }
                    }
                    id
                }
            },
            Expr::UnaryOp { op, operand } => {
                let operand_id = self.lower_expr(operand);
                let ghost n1 = self.dag.nodes();
                let node = IrNode::UnaryOp { op: Spanned { node: op.node, span: op.span }, operand: operand_id };
                let id = self.insert(node, span);
                proof {
                    if self.clean() {
                        lemma_denotes_extend(n1, self.dag.nodes(), operand_id, operand.node);
                    }
                }
                id
            },
            Expr::FnCall { func, args } => {
                let func_id = self.lower_expr(func);
                let ghost n1 = self.dag.nodes();
                let ir_args = self.lower_args(args, Vec::new());
                let ghost n2 = self.dag.nodes();
                let ghost a = ir_args@;
                let id = self.insert(IrNode::FnCall { func: func_id, args: ir_args }, span);
                proof {
                    if self.clean() {
                        lemma_denotes_extend(n1, self.dag.nodes(), func_id, func.node);
                        assert forall|i: int| 0 <= i < args@.len() implies denotes(
                            self.dag.nodes(),
                            #[trigger] a[i].value,
                            args@[i].value.node,
                        ) by {
                            assert(a[0 + i] == a[i]);
                            lemma_denotes_extend(n2, self.dag.nodes(), a[i].value, args@[i].value.node);
                        }
                        assert forall|i: int| 0 <= i < args@.len() implies #[trigger] a[i].name == args@[i].name by {
                            assert(a[0 + i] == a[i]);
                        }
                    }
                }
                id
            },
            Expr::FieldAccess { object, field } => {
                let object_id = self.lower_expr(object);
                let ghost n1 = self.dag.nodes();
                let id = self.insert(IrNode::FieldAccess { object: object_id, field: copy_name(field) }, span);
                proof {
                    if self.clean() {
                        lemma_denotes_extend(n1, self.dag.nodes(), object_id, object.node);
                    }
                }
                id
            },
            Expr::Lambda { params, body } => {
                let ir_params = self.lower_params(params);
                let ghost n1 = self.dag.nodes();
                let ghost p = ir_params@;
                let body_id = self.lower_expr(body);
                let ghost n2 = self.dag.nodes();
                let id = self.insert(IrNode::Lambda { params: ir_params, body: body_id }, span);
                proof {
                    if self.clean() {
                        lemma_denotes_extend(n2, self.dag.nodes(), body_id, body.node);
                        assert forall|i: int| 0 <= i < params@.len() implies (#[trigger] p[i]).name == params@[i].name && match (params@[i].default, p[i].default) {
                            (Some(d), Some(x)) => denotes(self.dag.nodes(), x, d.node),
                            (None, None) => true,
                            _ => false,
                        } by {
                            if let (Some(d), Some(x)) = (params@[i].default, p[i].default) {
                                lemma_denotes_extend(n1, self.dag.nodes(), x, d.node);
                            }
                        }
                    }
                }
                id
            },
            Expr::List(elems) => {
                let ids = self.lower_exprs(elems);
                let ghost n1 = self.dag.nodes();
                let ghost idv = ids@;
                let id = self.insert(IrNode::List(ids), span);
                proof {
                    if self.clean() {
                        assert forall|i: int| 0 <= i < elems@.len() implies denotes(
                            self.dag.nodes(),
                            #[trigger] idv[i],
                            elems@[i].node,
                        ) by {
                            lemma_denotes_extend(n1, self.dag.nodes(), idv[i], elems@[i].node);
                        }
                    }
                }
                id
            },
            Expr::DataConstructor { name, fields } => {
                let ir_fields = self.lower_field_inits(fields);
                let ghost n1 = self.dag.nodes();
                let ghost f = ir_fields@;
                let id = self.insert(IrNode::DataConstructor { name: copy_name(name), fields: ir_fields }, span);
                proof {
                    if self.clean() {
                        assert forall|i: int| 0 <= i < fields@.len() implies denotes(self.dag.nodes(), #[trigger] f[i].value, fields@[i].value.node) by {
                            lemma_denotes_extend(n1, self.dag.nodes(), f[i].value, fields@[i].value.node);
                        }
                    }
                }
                id
            },
            Expr::WithUpdate { base, updates } => {
                let base_id = self.lower_expr(base);
                let ghost n1 = self.dag.nodes();
                let ir_updates = self.lower_field_inits(updates);
                let ghost n2 = self.dag.nodes();
                let ghost u = ir_updates@;
                let id = self.insert(IrNode::WithUpdate { base: base_id, updates: ir_updates }, span);
                proof {
                    if self.clean() {
                        lemma_denotes_extend(n1, self.dag.nodes(), base_id, base.node);
                        assert forall|i: int| 0 <= i < updates@.len() implies denotes(self.dag.nodes(), #[trigger] u[i].value, updates@[i].value.node) by {
                            lemma_denotes_extend(n2, self.dag.nodes(), u[i].value, updates@[i].value.node);
                        }
                    }
                }
                id
            },
            Expr::If { cond, then_branch, else_branch } => {
                let cond_id = self.lower_expr(cond);
                let ghost n1 = self.dag.nodes();
                let then_id = self.lower_expr(then_branch);
                let ghost n2 = self.dag.nodes();
                let else_id = match else_branch {
                    Some(e) => Some(self.lower_expr(e)),
                    None => None,
                };
                let ghost n3 = self.dag.nodes();
                let node = IrNode::If { cond: cond_id, then_branch: then_id, else_branch: else_id };
                let id = self.insert(node, span);
                proof {
                    if self.clean() {
                        lemma_denotes_extend(n1, self.dag.nodes(), cond_id, cond.node);
                        lemma_denotes_extend(n2, self.dag.nodes(), then_id, then_branch.node);
                        if let Some(e) = else_branch {
                            lemma_denotes_extend(n3, self.dag.nodes(), else_id.unwrap(), e.node);
                        }
                    }
                }
                id
            },
            Expr::Match { subject, arms } => {
                let subject_id = self.lower_expr(subject);
                let ghost n1 = self.dag.nodes();
                let ir_arms = self.lower_match_arms(arms);
                let ghost n2 = self.dag.nodes();
                let ghost a = ir_arms@;
                let id = self.insert(IrNode::Match { subject: subject_id, arms: ir_arms }, span);
                proof {
                    if self.clean() {
                        lemma_denotes_extend(n1, self.dag.nodes(), subject_id, subject.node);
                        assert forall|i: int| 0 <= i < arms@.len() implies denotes(self.dag.nodes(), #[trigger] a[i].body, arms@[i].body.node) by {
                            lemma_denotes_extend(n2, self.dag.nodes(), a[i].body, arms@[i].body.node);
                        }
                        assert forall|i: int| 0 <= i < arms@.len() implies match (#[trigger] a[i].pattern.node, arms@[i].pattern.node) {
                            (IrPattern::Ident(m), Pattern::Ident(n)) => m == n,
                            (IrPattern::Wildcard, Pattern::Wildcard) => true,
                            (IrPattern::Literal(l), Pattern::Literal(lit)) => denotes(self.dag.nodes(), l, lit.node),
                            _ => false,
                        } by {
                            if let (IrPattern::Literal(l), Pattern::Literal(lit)) = (a[i].pattern.node, arms@[i].pattern.node) {
                                lemma_denotes_extend(n2, self.dag.nodes(), l, lit.node);
                            }
                        }
                    }
                }
                id
            },
            Expr::Block { stmts, tail } => {
                let stmt_ids = self.lower_stmts(stmts);
                let ghost n1 = self.dag.nodes();
                let tail_id = match tail {
                    Some(e) => Some(self.lower_expr(e)),
                    None => None,
                };
                let ghost n2 = self.dag.nodes();
                let ghost ss = stmt_ids@;
                let id = self.insert(IrNode::Block { stmts: stmt_ids, tail: tail_id }, span);
                proof {
                    if self.clean() {
                        assert forall|i: int| 0 <= i < stmts@.len() implies stmt_denotes(self.dag.nodes(), #[trigger] ss[i], stmts@[i].node) by {
                            lemma_stmt_denotes_extend(n1, self.dag.nodes(), ss[i], stmts@[i].node);
                        }
                        if let Some(e) = tail {
                            lemma_denotes_extend(n2, self.dag.nodes(), tail_id.unwrap(), e.node);
                        }
                    }
                }
                id
            },
            Expr::Grouped(inner) => self.lower_expr(inner),
        }
    }

    /// `a |> f` becomes `f(a)`, and `a |> f(b, c)` becomes `f(a, b, c)`:
    /// the piped value is the first, unnamed argument.
    fn lower_pipe(&mut self, expr: &Spanned<Expr>) -> (id: NodeId)
        requires
            old(self).wf(),
            expr.node is BinOp,
            expr.node->BinOp_op.node == BinOpKind::Pipe,
        ensures
            final(self).wf(),
            final(self).grew(old(self)),
            id.0 < final(self).dag.nodes().len(),
            final(self).clean() ==> id.0 + 1 == final(self).dag.nodes().len() && old(self).dag.nodes().len() <= id.0,
            final(self).clean() ==> denotes(final(self).dag.nodes(), id, expr.node),
        decreases expr, 0int,
    {
        let span = expr.span;
        let (lhs, rhs) = match &expr.node {
            Expr::BinOp { lhs, rhs, .. } => (lhs, rhs),
            // Not reached: the caller hands over a pipe.
            _ => {
                return self.lower_expr(expr);
            },
        };
        let lhs_id = self.lower_expr(lhs);
        let ghost n1 = self.dag.nodes();
        let lhs_arg = IrArg { name: None, value: lhs_id, span: lhs.span };
        match &rhs.node {
            Expr::FnCall { func, args } => {
                let func_id = self.lower_expr(func);
                let ghost n2 = self.dag.nodes();
                let first = vec![lhs_arg];
                let ghost first_seq = first@;
                let ir_args = self.lower_args(args, first);
                let ghost n3 = self.dag.nodes();
                let ghost a = ir_args@;
                let id = self.insert(IrNode::FnCall { func: func_id, args: ir_args }, span);
                proof {
                    if self.clean() {
                        assert(a[0] == a.take(1)[0]);
                        assert(a[0] == first_seq[0]);
                        lemma_denotes_extend(n1, self.dag.nodes(), lhs_id, lhs.node);
                        lemma_denotes_extend(n2, self.dag.nodes(), func_id, func.node);
                        assert forall|i: int| 0 <= i < args@.len() implies denotes(
                            self.dag.nodes(),
                            #[trigger] a[i + 1].value,
                            args@[i].value.node,
                        ) by {
                            assert(a[1 + i] == a[i + 1]);
                            lemma_denotes_extend(n3, self.dag.nodes(), a[i + 1].value, args@[i].value.node);
                        }
                        assert forall|i: int| 0 <= i < args@.len() implies #[trigger] a[i + 1].name == args@[i].name by {
                            assert(a[1 + i] == a[i + 1]);
                        }
                    }
                }
                id
            },
            _ => {
                let func_id = self.lower_expr(rhs);
                let ghost n2 = self.dag.nodes();
                let id = self.insert(IrNode::FnCall { func: func_id, args: vec![lhs_arg] }, span);
                proof {
                    if self.clean() {
                        lemma_denotes_extend(n1, self.dag.nodes(), lhs_id, lhs.node);
                        lemma_denotes_extend(n2, self.dag.nodes(), func_id, rhs.node);
                    }
                }
                id
            },
        }
    }

    fn lower_exprs(&mut self, elems: &Vec<Spanned<Expr>>) -> (ids: Vec<NodeId>)
        requires
            old(self).wf(),
        ensures
            final(self).wf(),
            final(self).grew(old(self)),
            ids_below(ids@, final(self).dag.nodes().len() as int),
            ids@.len() == elems@.len(),
            final(self).clean() ==> forall|i: int| 0 <= i < elems@.len() ==> denotes(final(self).dag.nodes(), #[trigger] ids@[i], elems@[i].node),
        decreases elems, 0int,
    {
        let mut ids: Vec<NodeId> = Vec::new();
        let mut i: usize = 0;
        while i < elems.len()
            invariant
                self.wf(),
                self.grew(old(self)),
                ids_below(ids@, self.dag.nodes().len() as int),
                i <= elems@.len(),
                ids@.len() == i,
                self.clean() ==> forall|k: int| 0 <= k < i ==> denotes(self.dag.nodes(), #[trigger] ids@[k], elems@[k].node),
            decreases elems@.len() - i,
        {
            proof {
                assert(decreases_to!(*elems => elems@));
            }
            let ghost n0 = self.dag.nodes();
            let ghost before = ids@;
            ids.push(self.lower_expr(&elems[i]));
            proof {
                if self.clean() {
                    assert forall|k: int| 0 <= k < i + 1 implies denotes(self.dag.nodes(), #[trigger] ids@[k], elems@[k].node) by {
                        if k < i {
                            assert(ids@[k] == before[k]);
                            lemma_denotes_extend(n0, self.dag.nodes(), before[k], elems@[k].node);
                        }
                    }
                }
            }
            i = i + 1;
        }
        ids
    }

    fn lower_stmts(&mut self, stmts: &Vec<Spanned<Stmt>>) -> (ids: Vec<NodeId>)
        requires
            old(self).wf(),
        ensures
            final(self).wf(),
            final(self).grew(old(self)),
            ids_below(ids@, final(self).dag.nodes().len() as int),
            ids@.len() == stmts@.len(),
            final(self).clean() ==> forall|i: int| 0 <= i < stmts@.len() ==> stmt_denotes(final(self).dag.nodes(), #[trigger] ids@[i], stmts@[i].node),
        decreases stmts, 0int,
    {
        let mut ids: Vec<NodeId> = Vec::new();
        let mut i: usize = 0;
        while i < stmts.len()
            invariant
                self.wf(),
                self.grew(old(self)),
                ids_below(ids@, self.dag.nodes().len() as int),
                i <= stmts@.len(),
                ids@.len() == i,
                self.clean() ==> forall|k: int| 0 <= k < i ==> stmt_denotes(self.dag.nodes(), #[trigger] ids@[k], stmts@[k].node),
            decreases stmts@.len() - i,
        {
            proof {
                assert(decreases_to!(*stmts => stmts@));
            }
            let ghost n0 = self.dag.nodes();
            let ghost before = ids@;
            ids.push(self.lower_stmt(&stmts[i]));
            proof {
                if self.clean() {
                    assert forall|k: int| 0 <= k < i + 1 implies stmt_denotes(self.dag.nodes(), #[trigger] ids@[k], stmts@[k].node) by {
                        if k < i {
                            assert(ids@[k] == before[k]);
                            lemma_stmt_denotes_extend(n0, self.dag.nodes(), before[k], stmts@[k].node);
                        }
                    }
                }
            }
            i = i + 1;
        }
        ids
    }

    fn lower_params(&mut self, params: &Vec<Param>) -> (r: Vec<IrParam>)
        requires
            old(self).wf(),
        ensures
            final(self).wf(),
            final(self).grew(old(self)),
            params_below(r@, final(self).dag.nodes().len() as int),
            r@.len() == params@.len(),
            final(self).clean() ==> forall|i: int| 0 <= i < params@.len() ==> (#[trigger] r@[i]).name == params@[i].name && match (params@[i].default, r@[i].default) {
                    (Some(d), Some(x)) => denotes(final(self).dag.nodes(), x, d.node),
                    (None, None) => true,
                    _ => false,
                },
        decreases params, 0int,
    {
        let mut r: Vec<IrParam> = Vec::new();
        let mut i: usize = 0;
        while i < params.len()
            invariant
                self.wf(),
                self.grew(old(self)),
                params_below(r@, self.dag.nodes().len() as int),
                i <= params@.len(),
                r@.len() == i,
                self.clean() ==> forall|k: int| 0 <= k < i ==> (#[trigger] r@[k]).name == params@[k].name && match (params@[k].default, r@[k].default) {
                    (Some(d), Some(x)) => denotes(self.dag.nodes(), x, d.node),
                    (None, None) => true,
                    _ => false,
                },
            decreases params@.len() - i,
        {
            proof {
                assert(decreases_to!(*params => params@));
            }
            let p = &params[i];
            let ghost n0 = self.dag.nodes();
            let ghost before = r@;
            let default = match &p.default {
                Some(d) => Some(self.lower_expr(d)),
                None => None,
            };
            r.push(IrParam { name: copy_name(&p.name), ty: copy_opt_type(&p.ty), default, span: p.span });
            proof {
                if self.clean() {
                    assert forall|k: int| 0 <= k < i implies (#[trigger] r@[k]) == before[k] by {}
                    assert forall|i: int| 0 <= i < before.len() implies (#[trigger] before[i]).name == params@[i].name && match (params@[i].default, before[i].default) {
                        (Some(d), Some(x)) => denotes(self.dag.nodes(), x, d.node),
                        (None, None) => true,
                        _ => false,
                    } by {
                        if let (Some(d), Some(x)) = (params@[i].default, before[i].default) {
                            lemma_denotes_extend(n0, self.dag.nodes(), x, d.node);
                        }
                    }
                }
            }
            i = i + 1;
        }
        r
    }

    /// Lowers the arguments and appends them after `first`.
    fn lower_args(&mut self, args: &Vec<Arg>, first: Vec<IrArg>) -> (r: Vec<IrArg>)
        requires
            old(self).wf(),
            args_below(first@, old(self).dag.nodes().len() as int),
        ensures
            final(self).wf(),
            final(self).grew(old(self)),
            args_below(r@, final(self).dag.nodes().len() as int),
            r@.len() == first@.len() + args@.len(),
            r@.take(first@.len() as int) == first@,
            final(self).clean() ==> forall|i: int| 0 <= i < args@.len() ==> #[trigger] r@[first@.len() + i].name == args@[i].name,
            final(self).clean() ==> forall|i: int| 0 <= i < args@.len() ==> denotes(final(self).dag.nodes(), #[trigger] r@[first@.len() + i].value, args@[i].value.node),
        decreases args, 0int,
    {
        let mut r = first;
        let ghost head = r@;
        let mut i: usize = 0;
        while i < args.len()
            invariant
                self.wf(),
                self.grew(old(self)),
                args_below(r@, self.dag.nodes().len() as int),
                i <= args@.len(),
                r@.len() == head.len() + i,
                r@.take(head.len() as int) == head,
                head == first@,
                self.clean() ==> forall|k: int| 0 <= k < i ==> #[trigger] r@[head.len() + k].name == args@[k].name,
                self.clean() ==> forall|k: int| 0 <= k < i ==> denotes(self.dag.nodes(), #[trigger] r@[head.len() + k].value, args@[k].value.node),
            decreases args@.len() - i,
        {
            proof {
                assert(decreases_to!(*args => args@));
            }
            let a = &args[i];
            let ghost nodes0 = self.dag.nodes();
            let value = self.lower_expr(&a.value);
            let name = match &a.name {
                Some(n) => Some(copy_name(n)),
                None => None,
            };
            let ghost before = r@;
            r.push(IrArg { name, value, span: a.span });
            proof {
                assert(r@.take(head.len() as int) =~= before.take(head.len() as int));
                if self.clean() {
                    assert forall|k: int| 0 <= k < i + 1 implies denotes(
                        self.dag.nodes(),
                        #[trigger] r@[head.len() + k].value,
                        args@[k].value.node,
                    ) by {
                        if k < i {
                            assert(r@[head.len() + k] == before[head.len() + k]);
                            lemma_denotes_extend(nodes0, self.dag.nodes(), before[head.len() + k].value, args@[k].value.node);
                        }
                    }
                    assert forall|k: int| 0 <= k < i + 1 implies #[trigger] r@[head.len() + k].name == args@[k].name by {
                        if k < i {
                            assert(r@[head.len() + k] == before[head.len() + k]);
                        }
                    }
                }
            }
            i = i + 1;
        }
        r
    }

    fn lower_field_inits(&mut self, fields: &Vec<FieldInit>) -> (r: Vec<IrFieldInit>)
        requires
            old(self).wf(),
        ensures
            final(self).wf(),
            final(self).grew(old(self)),
            inits_below(r@, final(self).dag.nodes().len() as int),
            r@.len() == fields@.len(),
            final(self).clean() ==> forall|i: int| 0 <= i < fields@.len() ==> #[trigger] r@[i].name == fields@[i].name,
            final(self).clean() ==> forall|i: int| 0 <= i < fields@.len() ==> denotes(final(self).dag.nodes(), #[trigger] r@[i].value, fields@[i].value.node),
        decreases fields, 0int,
    {
        let mut r: Vec<IrFieldInit> = Vec::new();
        let mut i: usize = 0;
        while i < fields.len()
            invariant
                self.wf(),
                self.grew(old(self)),
                inits_below(r@, self.dag.nodes().len() as int),
                i <= fields@.len(),
                r@.len() == i,
                self.clean() ==> forall|k: int| 0 <= k < i ==> #[trigger] r@[k].name == fields@[k].name,
                self.clean() ==> forall|k: int| 0 <= k < i ==> denotes(self.dag.nodes(), #[trigger] r@[k].value, fields@[k].value.node),
            decreases fields@.len() - i,
        {
            proof {
                assert(decreases_to!(*fields => fields@));
            }
            let f = &fields[i];
            let ghost n0 = self.dag.nodes();
            let ghost before = r@;
            let value = self.lower_expr(&f.value);
            r.push(IrFieldInit { name: copy_name(&f.name), value, span: f.span });
            proof {
                if self.clean() {
                    assert forall|k: int| 0 <= k < i + 1 implies denotes(self.dag.nodes(), #[trigger] r@[k].value, fields@[k].value.node) by {
                        if k < i {
                            assert(r@[k] == before[k]);
                            lemma_denotes_extend(n0, self.dag.nodes(), before[k].value, fields@[k].value.node);
                        }
                    }
                    assert forall|k: int| 0 <= k < i + 1 implies #[trigger] r@[k].name == fields@[k].name by {
                        if k < i {
                            assert(r@[k] == before[k]);
                        }
                    }
                }
            }
            i = i + 1;
        }
        r
    }

    fn lower_match_arms(&mut self, arms: &Vec<MatchArm>) -> (r: Vec<IrMatchArm>)
        requires
            old(self).wf(),
        ensures
            final(self).wf(),
            final(self).grew(old(self)),
            arms_below(r@, final(self).dag.nodes().len() as int),
            r@.len() == arms@.len(),
            final(self).clean() ==> forall|i: int| 0 <= i < arms@.len() ==> denotes(final(self).dag.nodes(), #[trigger] r@[i].body, arms@[i].body.node),
            final(self).clean() ==> forall|i: int| 0 <= i < arms@.len() ==> match (#[trigger] r@[i].pattern.node, arms@[i].pattern.node) {
                (IrPattern::Ident(m), Pattern::Ident(n)) => m == n,
                (IrPattern::Wildcard, Pattern::Wildcard) => true,
                (IrPattern::Literal(l), Pattern::Literal(lit)) => denotes(final(self).dag.nodes(), l, lit.node),
                _ => false,
            },
        decreases arms, 0int,
    {
        let mut r: Vec<IrMatchArm> = Vec::new();
        let mut i: usize = 0;
        while i < arms.len()
            invariant
                self.wf(),
                self.grew(old(self)),
                arms_below(r@, self.dag.nodes().len() as int),
                i <= arms@.len(),
                r@.len() == i,
                self.clean() ==> forall|k: int| 0 <= k < i ==> denotes(self.dag.nodes(), #[trigger] r@[k].body, arms@[k].body.node),
                self.clean() ==> forall|k: int| 0 <= k < i ==> match (#[trigger] r@[k].pattern.node, arms@[k].pattern.node) {
                    (IrPattern::Ident(m), Pattern::Ident(n)) => m == n,
                    (IrPattern::Wildcard, Pattern::Wildcard) => true,
                    (IrPattern::Literal(l), Pattern::Literal(lit)) => denotes(self.dag.nodes(), l, lit.node),
                    _ => false,
                },
            decreases arms@.len() - i,
        {
            proof {
                assert(decreases_to!(*arms => arms@));
            }
            let a = &arms[i];
            let ghost n0 = self.dag.nodes();
            let ghost before = r@;
            let pattern = match &a.pattern.node {
                Pattern::Ident(n) => IrPattern::Ident(n.clone()),
                Pattern::Wildcard => IrPattern::Wildcard,
                Pattern::Literal(e) => IrPattern::Literal(self.lower_expr(e)),
            };
            let ghost n1 = self.dag.nodes();
            let body = self.lower_expr(&a.body);
            r.push(IrMatchArm { pattern: Spanned { node: pattern, span: a.pattern.span }, body, span: a.span });
            proof {
                if self.clean() {
                    if let (IrPattern::Literal(l), Pattern::Literal(lit)) = (r@[i as int].pattern.node, arms@[i as int].pattern.node) {
                        lemma_denotes_extend(n1, self.dag.nodes(), l, lit.node);
                    }
                    assert forall|k: int| 0 <= k < i + 1 implies denotes(self.dag.nodes(), #[trigger] r@[k].body, arms@[k].body.node) by {
                        if k < i {
                            assert(r@[k] == before[k]);
                            lemma_denotes_extend(n0, self.dag.nodes(), before[k].body, arms@[k].body.node);
                        }
                    }
                    assert forall|k: int| 0 <= k < i + 1 implies match (#[trigger] r@[k].pattern.node, arms@[k].pattern.node) {
                        (IrPattern::Ident(m), Pattern::Ident(n)) => m == n,
                        (IrPattern::Wildcard, Pattern::Wildcard) => true,
                        (IrPattern::Literal(l), Pattern::Literal(lit)) => denotes(self.dag.nodes(), l, lit.node),
                        _ => false,
                    } by {
                        if k < i {
                            assert(r@[k] == before[k]);
                            if let (IrPattern::Literal(l), Pattern::Literal(lit)) = (before[k].pattern.node, arms@[k].pattern.node) {
                                lemma_denotes_extend(n0, self.dag.nodes(), l, lit.node);
                            }
                        }
                    }
                }
            }
            i = i + 1;
        }
        r
    }

    fn lower_fields(&mut self, fields: &Vec<Field>) -> (r: Vec<IrField>)
        requires
            old(self).wf(),
        ensures
            final(self).wf(),
            final(self).grew(old(self)),
            fields_below(r@, final(self).dag.nodes().len() as int),
            r@.len() == fields@.len(),
            final(self).clean() ==> forall|i: int| 0 <= i < fields@.len() ==> (#[trigger] r@[i]).name == fields@[i].name && match (fields@[i].default, r@[i].default) {
                    (Some(d), Some(x)) => denotes(final(self).dag.nodes(), x, d.node),
                    (None, None) => true,
                    _ => false,
                },
        decreases fields, 0int,
    {
        let mut r: Vec<IrField> = Vec::new();
        let mut i: usize = 0;
        while i < fields.len()
            invariant
                self.wf(),
                self.grew(old(self)),
                fields_below(r@, self.dag.nodes().len() as int),
                i <= fields@.len(),
                r@.len() == i,
                self.clean() ==> forall|k: int| 0 <= k < i ==> (#[trigger] r@[k]).name == fields@[k].name && match (fields@[k].default, r@[k].default) {
                    (Some(d), Some(x)) => denotes(self.dag.nodes(), x, d.node),
                    (None, None) => true,
                    _ => false,
                },
            decreases fields@.len() - i,
        {
            proof {
                assert(decreases_to!(*fields => fields@));
            }
            let f = &fields[i];
            let ghost n0 = self.dag.nodes();
            let ghost before = r@;
            let default = match &f.default {
                Some(d) => Some(self.lower_expr(d)),
                None => None,
            };
            r.push(IrField { name: copy_name(&f.name), ty: copy_type(&f.ty), default, span: f.span });
            proof {
                if self.clean() {
                    assert forall|k: int| 0 <= k < i implies (#[trigger] r@[k]) == before[k] by {}
                    assert forall|i: int| 0 <= i < before.len() implies (#[trigger] before[i]).name == fields@[i].name && match (fields@[i].default, before[i].default) {
                        (Some(d), Some(x)) => denotes(self.dag.nodes(), x, d.node),
                        (None, None) => true,
                        _ => false,
                    } by {
                        if let (Some(d), Some(x)) = (fields@[i].default, before[i].default) {
                            lemma_denotes_extend(n0, self.dag.nodes(), x, d.node);
                        }
                    }
                }
            }
            i = i + 1;
        }
        r
    }
}

} // verus!
