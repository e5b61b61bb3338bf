use vstd::prelude::*;
use crate::ast::{AngleUnit, BinOpKind, Decimal, LengthUnit, Type, UnaryOpKind};
use crate::span::{Span, Spanned};
use crate::text::{decimal, owned, push_char, push_decimal, push_str};

verus! {

/// Index of a node in the IR arena.
#[derive(Debug, Clone, Copy, PartialEq, Eq, Structural, Hash, PartialOrd, Ord)]
pub struct NodeId(pub u32);

impl NodeId {
    /// The id with the given raw index.
    pub fn from_raw(raw: u32) -> (r: NodeId)
        ensures
            r.0 == raw,
    {
        NodeId(raw)
    }

    /// The raw index of this id.
    pub fn index(self) -> (r: u32)
        ensures
            r == self.0,
    {
        self.0
    }

    /// The id as it is shown: `n` and its index.
    pub fn to_text(self) -> (r: String)
        ensures
            r@ == seq!['n'] + decimal(self.0 as nat),
    {
        let mut r = String::new();
        push_char(&mut r, 'n');
        push_decimal(&mut r, self.0 as u64);
        r
    }
}

/// A parameter of a function or lambda.
#[derive(Debug, PartialEq)]
pub struct IrParam {
    pub name: Spanned<String>,
    pub ty: Option<Spanned<Type>>,
    pub default: Option<NodeId>,
    pub span: Span,
}

/// A call argument, positional or named.
#[derive(Debug, PartialEq)]
pub struct IrArg {
    pub name: Option<Spanned<String>>,
    pub value: NodeId,
    pub span: Span,
}

/// `name = value` in a data constructor or a with-update.
#[derive(Debug, PartialEq)]
pub struct IrFieldInit {
    pub name: Spanned<String>,
    pub value: NodeId,
    pub span: Span,
}

/// A match pattern; a literal pattern is a node of the arena.
#[derive(Debug, PartialEq)]
pub enum IrPattern {
    Ident(String),
    Wildcard,
    Literal(NodeId),
}

/// `pattern => body`
#[derive(Debug, PartialEq)]
pub struct IrMatchArm {
    pub pattern: Spanned<IrPattern>,
    pub body: NodeId,
    pub span: Span,
}

/// A field of a data definition.
#[derive(Debug, PartialEq)]
pub struct IrField {
    pub name: Spanned<String>,
    pub ty: Spanned<Type>,
    pub default: Option<NodeId>,
    pub span: Span,
}

/// The IR node variants. They mirror the AST, except that a parenthesized
/// expression leaves no node and `|>` becomes a call.
#[derive(Debug, PartialEq)]
pub enum IrNode {
    IntLit(i64),
    FloatLit(Decimal),
    LengthLit(Decimal, LengthUnit),
    AngleLit(Decimal, AngleUnit),
    BoolLit(bool),
    StringLit(String),
    Ident(String),
    BinOp { lhs: NodeId, op: Spanned<BinOpKind>, rhs: NodeId },
    UnaryOp { op: Spanned<UnaryOpKind>, operand: NodeId },
    FnCall { func: NodeId, args: Vec<IrArg> },
    FieldAccess { object: NodeId, field: Spanned<String> },
    Lambda { params: Vec<IrParam>, body: NodeId },
    List(Vec<NodeId>),
    DataConstructor { name: Spanned<String>, fields: Vec<IrFieldInit> },
    WithUpdate { base: NodeId, updates: Vec<IrFieldInit> },
    If { cond: NodeId, then_branch: NodeId, else_branch: Option<NodeId> },
    Match { subject: NodeId, arms: Vec<IrMatchArm> },
    Block { stmts: Vec<NodeId>, tail: Option<NodeId> },
    Let { name: Spanned<String>, ty: Option<Spanned<Type>>, value: NodeId },
    FnDef {
        name: Spanned<String>,
        params: Vec<IrParam>,
        return_ty: Option<Spanned<Type>>,
        body: NodeId,
    },
    DataDef { name: Spanned<String>, fields: Vec<IrField> },
    EnumDef { name: Spanned<String>, variants: Vec<Spanned<String>> },
}

/// A node of the arena with its source span.
#[derive(Debug, PartialEq)]
pub struct IrNodeData {
    pub node: IrNode,
    pub span: Span,
}

pub open spec fn opt_below(o: Option<NodeId>, b: int) -> bool {
    o matches Some(id) ==> id.0 < b
}

pub open spec fn ids_below(s: Seq<NodeId>, b: int) -> bool {
    forall|i: int| 0 <= i < s.len() ==> (#[trigger] s[i]).0 < b
}

pub open spec fn args_below(s: Seq<IrArg>, b: int) -> bool {
    forall|i: int| 0 <= i < s.len() ==> (#[trigger] s[i]).value.0 < b
}

pub open spec fn inits_below(s: Seq<IrFieldInit>, b: int) -> bool {
    forall|i: int| 0 <= i < s.len() ==> (#[trigger] s[i]).value.0 < b
}

pub open spec fn params_below(s: Seq<IrParam>, b: int) -> bool {
    forall|i: int| 0 <= i < s.len() ==> opt_below((#[trigger] s[i]).default, b)
}

pub open spec fn fields_below(s: Seq<IrField>, b: int) -> bool {
    forall|i: int| 0 <= i < s.len() ==> opt_below((#[trigger] s[i]).default, b)
}

pub open spec fn arms_below(s: Seq<IrMatchArm>, b: int) -> bool {
    forall|i: int|
        0 <= i < s.len() ==> {
            &&& (#[trigger] s[i]).body.0 < b
            &&& (s[i].pattern.node matches IrPattern::Literal(id) ==> id.0 < b)
        }
}

/// Every node that `n` refers to has an index below `b`.
pub open spec fn refs_below(n: IrNode, b: int) -> bool {
    match n {
        IrNode::BinOp { lhs, rhs, .. } => lhs.0 < b && rhs.0 < b,
        IrNode::UnaryOp { operand, .. } => operand.0 < b,
        IrNode::FnCall { func, args } => func.0 < b && args_below(args@, b),
        IrNode::FieldAccess { object, .. } => object.0 < b,
        IrNode::Lambda { params, body } => params_below(params@, b) && body.0 < b,
        IrNode::List(ids) => ids_below(ids@, b),
        IrNode::DataConstructor { fields, .. } => inits_below(fields@, b),
        IrNode::WithUpdate { base, updates } => base.0 < b && inits_below(updates@, b),
        IrNode::If { cond, then_branch, else_branch } => cond.0 < b && then_branch.0 < b
            && opt_below(else_branch, b),
        IrNode::Match { subject, arms } => subject.0 < b && arms_below(arms@, b),
        IrNode::Block { stmts, tail } => ids_below(stmts@, b) && opt_below(tail, b),
        IrNode::Let { value, .. } => value.0 < b,
        IrNode::FnDef { params, body, .. } => params_below(params@, b) && body.0 < b,
        IrNode::DataDef { fields, .. } => fields_below(fields@, b),
        _ => true,
    }
}

/// A binary node of the pipe operator.
pub open spec fn is_pipe(n: IrNode) -> bool {
    n matches IrNode::BinOp { op, .. } && op.node == BinOpKind::Pipe
}

/// The arena of IR nodes and the roots (top-level statements) in order.
#[derive(Debug)]
pub struct Dag {
    nodes: Vec<IrNodeData>,
    roots: Vec<NodeId>,
}

impl Dag {
    /// The nodes, by index.
    pub closed spec fn nodes(&self) -> Seq<IrNodeData> {
        self.nodes@
    }

    /// The roots, in order.
    pub closed spec fn root_ids(&self) -> Seq<NodeId> {
        self.roots@
    }

    /// Each node refers only to nodes inserted before it, so the graph is
    /// acyclic; no node is a pipe; every root is a node; every index fits
    /// a `NodeId`.
    pub open spec fn wf(&self) -> bool {
        &&& self.nodes().len() <= u32::MAX
        &&& forall|i: int| 0 <= i < self.nodes().len() ==> refs_below(#[trigger] self.nodes()[i].node, i)
        &&& forall|i: int| 0 <= i < self.nodes().len() ==> !is_pipe(#[trigger] self.nodes()[i].node)
        &&& forall|i: int| 0 <= i < self.root_ids().len() ==> (#[trigger] self.root_ids()[i]).0 < self.nodes().len()
    }

    pub fn new() -> (r: Dag)
        ensures
            r.wf(),
            r.nodes().len() == 0,
            r.root_ids().len() == 0,
    {
        Dag { nodes: Vec::new(), roots: Vec::new() }
    }

    /// Appends a node and returns its id, the next index.
    pub fn insert(&mut self, node: IrNode, span: Span) -> (id: NodeId)
        requires
            old(self).wf(),
            old(self).nodes().len() < u32::MAX,
            refs_below(node, old(self).nodes().len() as int),
            !is_pipe(node),
        ensures
            final(self).wf(),
            id.0 == old(self).nodes().len(),
            final(self).nodes() == old(self).nodes().push(IrNodeData { node, span }),
            final(self).root_ids() == old(self).root_ids(),
    {
        let ghost before = self.nodes@;
        let id = NodeId(self.nodes.len() as u32);
        self.nodes.push(IrNodeData { node, span });
        proof {
            assert forall|i: int| 0 <= i < self.nodes().len() implies refs_below(
                #[trigger] self.nodes()[i].node,
                i,
            ) && !is_pipe(self.nodes()[i].node) by {
                if i < before.len() {
                    assert(self.nodes()[i] == before[i]);
                }
            }
            assert forall|i: int| 0 <= i < self.root_ids().len() implies (
            #[trigger] self.root_ids()[i]).0 < self.nodes().len() by {
                assert(self.root_ids()[i] == old(self).root_ids()[i]);
            }
        }
        id
    }

    /// The node with its span.
    pub fn get(&self, id: NodeId) -> (r: &IrNodeData)
        requires
            id.0 < self.nodes().len(),
        ensures
            *r == self.nodes()[id.0 as int],
    {
        &self.nodes[id.0 as usize]
    }

    /// The node.
    pub fn node(&self, id: NodeId) -> (r: &IrNode)
        requires
            id.0 < self.nodes().len(),
        ensures
            *r == self.nodes()[id.0 as int].node,
    {
        &self.get(id).node
    }

    /// The node's span.
    pub fn span(&self, id: NodeId) -> (r: Span)
        requires
            id.0 < self.nodes().len(),
        ensures
            r == self.nodes()[id.0 as int].span,
    {
        self.get(id).span
    }

    /// Sets the roots.
    pub fn set_roots(&mut self, roots: Vec<NodeId>)
        requires
            old(self).wf(),
            ids_below(roots@, old(self).nodes().len() as int),
        ensures
            final(self).wf(),
            final(self).nodes() == old(self).nodes(),
            final(self).root_ids() == roots@,
    {
        self.roots = roots;
    }

    /// The roots, in order.
    pub fn roots(&self) -> (r: &[NodeId])
        ensures
            r@ == self.root_ids(),
    {
        self.roots.as_slice()
    }

    /// Number of nodes.
    pub fn len(&self) -> (r: usize)
        ensures
            r == self.nodes().len(),
    {
        self.nodes.len()
    }

    /// The ids of all nodes, in insertion order.
    pub fn ids(&self) -> (r: Vec<NodeId>)
        requires
            self.wf(),
        ensures
            r@.len() == self.nodes().len(),
            forall|i: int| 0 <= i < r@.len() ==> (#[trigger] r@[i]).0 == i,
    {
        let mut r: Vec<NodeId> = Vec::new();
        let mut i: usize = 0;
        while i < self.nodes.len()
            invariant
                self.wf(),
                i <= self.nodes@.len(),
                r@.len() == i,
                forall|k: int| 0 <= k < i ==> (#[trigger] r@[k]).0 == k,
            decreases self.nodes@.len() - i,
        {
            r.push(NodeId(i as u32));
            i = i + 1;
        }
        r
    }

    /// Whether there are no nodes.
    pub fn is_empty(&self) -> (r: bool)
        ensures
            r == (self.nodes().len() == 0),
    {
        self.nodes.len() == 0
    }
}

impl Default for Dag {
    fn default() -> (r: Dag)
        ensures
            r.wf(),
            r.nodes().len() == 0,
            r.root_ids().len() == 0,
    {
        Dag::new()
    }
}

/// Why lowering failed.
#[derive(Debug, Clone, Copy, PartialEq, Eq, Structural)]
pub enum IrErrorKind {
    /// A construct that lowering does not support.
    Unsupported,
}

/// An error met while lowering the AST.
#[derive(Debug, Clone, PartialEq, Eq)]
pub struct IrError {
    pub message: String,
    pub span: Span,
    pub kind: IrErrorKind,
}

impl IrError {
    pub fn new(message: &str, span: Span, kind: IrErrorKind) -> (r: IrError)
        ensures
            r.message@ == message@,
            r.span == span,
            r.kind == kind,
    {
        IrError { message: owned(message), span, kind }
    }

    /// The text of the error: `[Unsupported] message (start..end)`.
    pub fn to_text(&self) -> (r: String)
        ensures
            r@ == "[Unsupported] "@ + self.message@ + " ("@ + decimal(self.span.start as nat)
                + ".."@ + decimal(self.span.end as nat) + ")"@,
    {
        let mut r = owned("[Unsupported] ");
        push_str(&mut r, self.message.as_str());
        push_str(&mut r, " (");
        push_decimal(&mut r, self.span.start as u64);
        push_str(&mut r, "..");
        push_decimal(&mut r, self.span.end as u64);
        push_str(&mut r, ")");
        r
    }
}

} // verus!
