use vstd::prelude::*;
use vstd::string::{StrSliceExecFns, StringSliceAdditionalSpecFns};
use crate::ast::{
    AngleUnit, Arg, BinOpKind, DataDef, Decimal, EnumDef, Expr, Field, FieldInit, FnDef,
    LengthUnit, LetStmt, MatchArm, Param, Pattern, SourceFile, Stmt, Type, UnaryOpKind,
};
use crate::error::{ErrorKind, SyntaxError};
use crate::span::{Span, Spanned};
use crate::text::{owned, push_char, push_str, str_eq};
use crate::token::{SyntaxKind, Token};
use crate::lexer::{digits_text, is_alpha, is_digit};

verus! {

/// The errors the parser reports.
pub open spec fn parser_error_kind(k: ErrorKind) -> bool {
    k == ErrorKind::ExpectedToken || k == ErrorKind::ExpectedExpr
}

/// A token stream as the lexer hands it over: it ends with `Eof`.
pub open spec fn ends_with_eof(tokens: Seq<Token>) -> bool {
    tokens.len() >= 1 && tokens.last().kind == SyntaxKind::Eof
}

/// A name that starts with an uppercase ASCII letter.
pub open spec fn upper_start(s: Seq<char>) -> bool {
    s.len() > 0 && 'A' <= s[0] <= 'Z'
}

/// How tightly a binary operator binds, from `|>` (loosest) to `*` and
/// `/`.
pub open spec fn op_level(k: BinOpKind) -> nat {
    match k {
        BinOpKind::Pipe => 1,
        BinOpKind::Or => 3,
        BinOpKind::And => 5,
        BinOpKind::Eq | BinOpKind::Neq => 7,
        BinOpKind::Lt | BinOpKind::Leq | BinOpKind::Gt | BinOpKind::Geq => 9,
        BinOpKind::Add | BinOpKind::Sub => 11,
        BinOpKind::Mul | BinOpKind::Div => 13,
    }
}

/// The shape the parser gives every expression, and every expression
/// inside it: binary operators follow the precedence ladder and associate
/// to the left (an operand that is itself an unparenthesized operation
/// binds at least as tightly on the left, strictly more tightly on the
/// right); the operand of a prefix operator is never a binary operation; a
/// block without a tail does not end with an expression statement (that
/// statement would have become its tail); and a data constructor's name
/// starts with an uppercase letter.
pub open spec fn shaped(e: Expr) -> bool
    decreases e,
{
    match e {
        Expr::BinOp { lhs, op, rhs } => {
            &&& shaped(lhs.node)
            &&& shaped(rhs.node)
            &&& (lhs.node matches Expr::BinOp { op: o, .. } ==> op_level(o.node) >= op_level(op.node))
            &&& (rhs.node matches Expr::BinOp { op: o, .. } ==> op_level(o.node) > op_level(op.node))
        },
        Expr::UnaryOp { operand, .. } => shaped(operand.node) && !(operand.node is BinOp),
        Expr::FnCall { func, args } => shaped(func.node) && forall|i: int| 0 <= i < args@.len() ==> shaped(#[trigger] args@[i].value.node),
        Expr::FieldAccess { object, .. } => shaped(object.node),
        Expr::Lambda { params, body } => shaped(body.node) && forall|i: int| 0 <= i < params@.len() ==> (#[trigger] params@[i].default matches Some(d) ==> shaped(d.node)),
        Expr::List(items) => forall|i: int| 0 <= i < items@.len() ==> shaped(#[trigger] items@[i].node),
        Expr::If { cond, then_branch, else_branch } => shaped(cond.node) && shaped(then_branch.node) && (else_branch matches Some(e) ==> shaped(e.node)),
        Expr::Match { subject, arms } => shaped(subject.node) && forall|i: int| 0 <= i < arms@.len() ==> shaped(#[trigger] arms@[i].body.node),
        Expr::DataConstructor { name, fields } => upper_start(name.node@) && forall|i: int| 0 <= i < fields@.len() ==> shaped(#[trigger] fields@[i].value.node),
        Expr::WithUpdate { base, updates } => shaped(base.node) && forall|i: int| 0 <= i < updates@.len() ==> shaped(#[trigger] updates@[i].value.node),
        Expr::Block { stmts, tail } => {
            &&& (tail is None ==> stmts@.len() == 0 || !(stmts@.last().node is Expr))
            &&& forall|i: int| 0 <= i < stmts@.len() ==> stmt_shaped(#[trigger] stmts@[i].node)
            &&& (tail matches Some(t) ==> shaped(t.node))
        },
        Expr::Grouped(inner) => shaped(inner.node),
        _ => true,
    }
}

/// Every expression of the statement is `shaped`.
pub open spec fn stmt_shaped(s: Stmt) -> bool
    decreases s,
{
    match s {
        Stmt::Let(l) => shaped(l.value.node),
        Stmt::FnDef(f) => shaped(f.body.node) && forall|i: int| 0 <= i < f.params@.len() ==> (#[trigger] f.params@[i].default matches Some(d) ==> shaped(d.node)),
        Stmt::DataDef(d) => forall|i: int| 0 <= i < d.fields@.len() ==> (#[trigger] d.fields@[i].default matches Some(e) ==> shaped(e.node)),
        Stmt::EnumDef(_) => true,
        Stmt::Expr(e) => shaped(e.node),
    }
}

/// A newline or an error token, which the parser passes over between
/// statements.
pub open spec fn skipped(k: SyntaxKind) -> bool {
    k == SyntaxKind::Newline || k == SyntaxKind::Error
}

/// Some token, after the leading newlines and error tokens, is not `Eof`.
pub open spec fn has_content(toks: Seq<Token>) -> bool {
    exists|i: int|
        {
            &&& 0 <= i < toks.len()
            &&& !skipped(#[trigger] toks[i].kind)
            &&& toks[i].kind != SyntaxKind::Eof
            &&& forall|j: int| 0 <= j < i ==> skipped(#[trigger] toks[j].kind)
        }
}

/// Parses the tokens of `source` into a file. Errors are collected, not
/// fatal: after each one a placeholder node stands in and parsing goes on.
pub fn parse(source: &str, tokens: Vec<Token>) -> (r: (SourceFile, Vec<SyntaxError>))
    requires
        ends_with_eof(tokens@),
    ensures
        forall|k: int| 0 <= k < r.1@.len() ==> parser_error_kind(#[trigger] r.1@[k].kind),
        forall|i: int| 0 <= i < r.0.stmts@.len() ==> stmt_shaped(#[trigger] r.0.stmts@[i].node),
        has_content(tokens@) ==> r.0.stmts@.len() > 0,
{
    let mut parser = Parser::new(source, tokens);
    let file = parser.parse_file();
    (file, parser.errors)
}

/// The binding power of a prefix operator.
pub fn prefix_bp(kind: SyntaxKind) -> (r: Option<u8>)
    ensures
        r is Some <==> (kind == SyntaxKind::Minus || kind == SyntaxKind::Bang),
        r matches Some(bp) ==> bp == 15,
{
    match kind {
        SyntaxKind::Minus | SyntaxKind::Bang => Some(15),
        _ => None,
    }
}

/// The left binding power of each infix operator, from loosest to
/// tightest: `|>`, `||`, `&&`, equality, comparison, additive,
/// multiplicative.
pub open spec fn infix_level(kind: SyntaxKind) -> Option<u8> {
    match kind {
        SyntaxKind::PipeGt => Some(1u8),
        SyntaxKind::PipePipe => Some(3u8),
        SyntaxKind::AmpAmp => Some(5u8),
        SyntaxKind::EqEq | SyntaxKind::BangEq => Some(7u8),
        SyntaxKind::Lt | SyntaxKind::LtEq | SyntaxKind::Gt | SyntaxKind::GtEq => Some(9u8),
        SyntaxKind::Plus | SyntaxKind::Minus => Some(11u8),
        SyntaxKind::Star | SyntaxKind::Slash => Some(13u8),
        _ => None,
    }
}

/// Left and right binding powers of an infix operator; the right one is
/// one more, so every infix operator associates to the left.
pub fn infix_bp(kind: SyntaxKind) -> (r: Option<(u8, u8)>)
    ensures
        match infix_level(kind) {
            Some(l) => r == Some((l, (l + 1) as u8)),
            None => r is None,
        },
{
    match kind {
        SyntaxKind::PipeGt => Some((1, 2)),
        SyntaxKind::PipePipe => Some((3, 4)),
        SyntaxKind::AmpAmp => Some((5, 6)),
        SyntaxKind::EqEq | SyntaxKind::BangEq => Some((7, 8)),
        SyntaxKind::Lt | SyntaxKind::LtEq | SyntaxKind::Gt | SyntaxKind::GtEq => Some((9, 10)),
        SyntaxKind::Plus | SyntaxKind::Minus => Some((11, 12)),
        SyntaxKind::Star | SyntaxKind::Slash => Some((13, 14)),
        _ => None,
    }
}

/// The binary operator of an infix token.
fn binop_of(kind: SyntaxKind) -> (r: BinOpKind)
    requires
        infix_level(kind) is Some,
    ensures
        (r == BinOpKind::Pipe) <==> (kind == SyntaxKind::PipeGt),
        op_level(r) == infix_level(kind).unwrap(),
{
    match kind {
        SyntaxKind::Plus => BinOpKind::Add,
        SyntaxKind::Minus => BinOpKind::Sub,
        SyntaxKind::Star => BinOpKind::Mul,
        SyntaxKind::Slash => BinOpKind::Div,
        SyntaxKind::EqEq => BinOpKind::Eq,
        SyntaxKind::BangEq => BinOpKind::Neq,
        SyntaxKind::Lt => BinOpKind::Lt,
        SyntaxKind::LtEq => BinOpKind::Leq,
        SyntaxKind::Gt => BinOpKind::Gt,
        SyntaxKind::GtEq => BinOpKind::Geq,
        SyntaxKind::AmpAmp => BinOpKind::And,
        SyntaxKind::PipePipe => BinOpKind::Or,
        _ => BinOpKind::Pipe,
    }
}

struct Parser<'a> {
    source: &'a str,
    tokens: Vec<Token>,
    pos: usize,
    errors: Vec<SyntaxError>,
}

impl<'a> Parser<'a> {
    fn new(source: &'a str, tokens: Vec<Token>) -> (r: Parser<'a>)
        requires
            ends_with_eof(tokens@),
        ensures
            r.wf(),
            r.pos == 0,
            r.tokens@ == tokens@,
    {
        Parser { source, tokens, pos: 0, errors: Vec::new() }
    }

    spec fn wf(&self) -> bool {
        &&& ends_with_eof(self.tokens@)
        &&& self.pos < self.tokens@.len()
        &&& forall|k: int| 0 <= k < self.errors@.len() ==> parser_error_kind(#[trigger] self.errors@[k].kind)
    }

    /// Tokens left before the final `Eof`.
    spec fn remaining(&self) -> int {
        self.tokens@.len() - 1 - self.pos
    }

    spec fn kind_now(&self) -> SyntaxKind {
        self.tokens@[self.pos as int].kind
    }

    /// The same input, with no token given back.
    spec fn moved_on(&self, before: &Self) -> bool {
        &&& self.wf()
        &&& self.tokens@ == before.tokens@
        &&& self.source == before.source
        &&& self.remaining() <= before.remaining()
    }

    /// Consumed a token unless it started at `Eof`.
    spec fn progressed(&self, before: &Self) -> bool {
        before.kind_now() != SyntaxKind::Eof ==> self.remaining() < before.remaining()
    }

    fn peek(&self) -> (r: SyntaxKind)
        requires
            self.wf(),
        ensures
            r == self.kind_now(),
    {
        self.tokens[self.pos].kind
    }

    fn current_token(&self) -> (r: Token)
        requires
            self.wf(),
        ensures
            r == self.tokens@[self.pos as int],
    {
        self.tokens[self.pos]
    }

    /// Takes the current token; the final `Eof` is never passed.
    fn advance(&mut self) -> (r: Token)
        requires
            old(self).wf(),
        ensures
            final(self).moved_on(old(self)),
            r == old(self).tokens@[old(self).pos as int],
            final(self).errors == old(self).errors,
            old(self).pos + 1 < old(self).tokens@.len() ==> final(self).pos == old(self).pos + 1,
            old(self).pos + 1 >= old(self).tokens@.len() ==> final(self).pos == old(self).pos,
            final(self).progressed(old(self)),
    {
        let tok = self.tokens[self.pos];
        if self.pos < self.tokens.len() - 1 {
            self.pos = self.pos + 1;
        }
        tok
    }

    fn at(&self, kind: SyntaxKind) -> (r: bool)
        requires
            self.wf(),
        ensures
            r == (self.kind_now() == kind),
    {
        self.peek() == kind
    }

    fn at_end(&self) -> (r: bool)
        requires
            self.wf(),
        ensures
            r == (self.kind_now() == SyntaxKind::Eof),
    {
        self.peek() == SyntaxKind::Eof
    }

    fn push_error(&mut self, message: &str, span: Span, kind: ErrorKind)
        requires
            old(self).wf(),
            parser_error_kind(kind),
        ensures
            final(self).moved_on(old(self)),
            final(self).pos == old(self).pos,
    {
        self.errors.push(SyntaxError::new(message, span, kind));
    }

    /// Takes a token of the given kind, or reports what was found instead.
    fn expect(&mut self, kind: SyntaxKind) -> (r: Option<Token>)
        requires
            old(self).wf(),
        ensures
            final(self).moved_on(old(self)),
    {
        if self.at(kind) {
            Some(self.advance())
        } else {
            let tok = self.current_token();
            let mut message = owned("expected ");
            push_str(&mut message, kind.name());
            push_str(&mut message, ", found ");
            push_str(&mut message, tok.kind.name());
            self.push_error(message.as_str(), tok.span, ErrorKind::ExpectedToken);
            None
        }
    }

    /// The source text of a token; empty where its span does not fall on
    /// character boundaries (a stray byte of a multi-byte character).
    fn text(&self, token: &Token) -> (r: String)
        requires
            self.wf(),
    {
        let (s, e) = (token.span.start as usize, token.span.end as usize);
        if s <= e && e <= self.source.len() && self.source.is_char_boundary(s)
            && self.source.is_char_boundary(e) {
            proof {
                vstd::utf8::encode_utf8_valid_utf8(self.source@);
            }
            owned(token.text(self.source))
        } else {
            String::new()
        }
    }

    fn skip_newlines(&mut self)
        requires
            old(self).wf(),
        ensures
            final(self).moved_on(old(self)),
            final(self).kind_now() != SyntaxKind::Newline,
            old(self).kind_now() == SyntaxKind::Newline ==> final(self).remaining() < old(self).remaining(),
            old(self).kind_now() != SyntaxKind::Newline ==> final(self).pos == old(self).pos,
    {
        while self.at(SyntaxKind::Newline)
            invariant
                self.moved_on(old(self)),
                old(self).kind_now() != SyntaxKind::Newline ==> self.pos == old(self).pos,
                old(self).kind_now() == SyntaxKind::Newline && self.remaining() == old(self).remaining()
                    ==> self.kind_now() == SyntaxKind::Newline,
            decreases self.remaining(),
        {
            self.advance();
        }
    }

    fn skip_trivia(&mut self)
        requires
            old(self).wf(),
        ensures
            final(self).moved_on(old(self)),
            !skipped(final(self).kind_now()),
            (forall|j: int| 0 <= j < old(self).pos ==> skipped(#[trigger] old(self).tokens@[j].kind))
                ==> forall|j: int| 0 <= j < final(self).pos ==> skipped(#[trigger] final(self).tokens@[j].kind),
    {
        while self.at(SyntaxKind::Newline) || self.at(SyntaxKind::Error)
            invariant
                self.moved_on(old(self)),
                (forall|j: int| 0 <= j < old(self).pos ==> skipped(#[trigger] old(self).tokens@[j].kind))
                    ==> forall|j: int| 0 <= j < self.pos ==> skipped(#[trigger] self.tokens@[j].kind),
            decreases self.remaining(),
        {
            self.advance();
        }
    }

    /// The text of the token as a spanned name.
    fn name_of(&self, tok: &Token) -> (r: Spanned<String>)
        requires
            self.wf(),
        ensures
            r.span == tok.span,
    {
        Spanned { node: self.text(tok), span: tok.span }
    }
}

impl<'a> Parser<'a> {
    fn parse_file(&mut self) -> (r: SourceFile)
        requires
            old(self).wf(),
            old(self).pos == 0,
        ensures
            final(self).wf(),
            final(self).tokens@ == old(self).tokens@,
            has_content(old(self).tokens@) ==> r.stmts@.len() > 0,
            forall|i: int| 0 <= i < r.stmts@.len() ==> stmt_shaped(#[trigger] r.stmts@[i].node),
    {
        let start = self.current_token().span;
        let mut stmts: Vec<Spanned<Stmt>> = Vec::new();
        self.skip_trivia();
        proof {
            if has_content(self.tokens@) {
                let i = choose|i: int|
                    {
                        &&& 0 <= i < self.tokens@.len()
                        &&& !skipped(#[trigger] self.tokens@[i].kind)
                        &&& self.tokens@[i].kind != SyntaxKind::Eof
                        &&& forall|j: int| 0 <= j < i ==> skipped(#[trigger] self.tokens@[j].kind)
                    };
                if i < self.pos {
                    assert(skipped(self.tokens@[i].kind));
                }
                if (self.pos as int) < i {
                    assert(skipped(self.tokens@[self.pos as int].kind));
                }
            }
        }
        while !self.at_end()
            invariant
                self.wf(),
                self.tokens@ == old(self).tokens@,
                has_content(self.tokens@) ==> stmts@.len() > 0 || (!skipped(self.kind_now())
                    && self.kind_now() != SyntaxKind::Eof),
                forall|i: int| 0 <= i < stmts@.len() ==> stmt_shaped(#[trigger] stmts@[i].node),
            decreases self.remaining(),
        {
            let ghost head = self.remaining();
            let ghost before = stmts@.len();
            match self.parse_stmt() {
                Some(stmt) => stmts.push(stmt),
                None => {},
            }
            self.skip_trivia();
            while self.at(SyntaxKind::Semicolon) || self.at(SyntaxKind::Newline)
                invariant
                    self.wf(),
                    self.tokens@ == old(self).tokens@,
                    has_content(self.tokens@) ==> stmts@.len() > 0,
                    self.remaining() < head,
                    forall|i: int| 0 <= i < stmts@.len() ==> stmt_shaped(#[trigger] stmts@[i].node),
                decreases self.remaining(),
            {
                self.advance();
            }
        }
        let end = self.current_token().span;
        SourceFile { stmts, span: start.merge(end) }
    }

    fn parse_stmt(&mut self) -> (r: Option<Spanned<Stmt>>)
        requires
            old(self).wf(),
        ensures
            final(self).moved_on(old(self)),
            final(self).progressed(old(self)),
            r matches Some(st) ==> stmt_shaped(st.node),
            old(self).kind_now() != SyntaxKind::Newline && old(self).kind_now() != SyntaxKind::Eof
                ==> r is Some,
        decreases old(self).remaining(), 20int,
    {
        self.skip_newlines();
        if self.at_end() {
            return None;
        }
        match self.peek() {
            SyntaxKind::Let => Some(self.parse_let_stmt()),
            SyntaxKind::Fn => Some(self.parse_fn_def()),
            SyntaxKind::Data => Some(self.parse_data_def()),
            SyntaxKind::Enum => Some(self.parse_enum_def()),
            _ => {
                let expr = self.parse_expr();
                let span = expr.span;
                Some(Spanned { node: Stmt::Expr(expr), span })
            },
        }
    }

    fn parse_let_stmt(&mut self) -> (r: Spanned<Stmt>)
        requires
            old(self).wf(),
            old(self).kind_now() == SyntaxKind::Let,
        ensures
            final(self).moved_on(old(self)),
            final(self).progressed(old(self)),
            stmt_shaped(r.node),
        decreases old(self).remaining(), 19int,
    {
        let let_tok = self.advance();
        self.skip_newlines();
        let name_tok = self.advance();
        let name = self.name_of(&name_tok);
        self.skip_newlines();
        let ty = if self.at(SyntaxKind::Colon) {
            self.advance();
            self.skip_newlines();
            Some(self.parse_type())
        } else {
            None
        };
        self.skip_newlines();
        let _ = self.expect(SyntaxKind::Eq);
        self.skip_newlines();
        let value = self.parse_expr();
        let span = let_tok.span.merge(value.span);
        Spanned { node: Stmt::Let(LetStmt { name, ty, value }), span }
    }

    fn parse_fn_def(&mut self) -> (r: Spanned<Stmt>)
        requires
            old(self).wf(),
            old(self).kind_now() == SyntaxKind::Fn,
        ensures
            final(self).moved_on(old(self)),
            final(self).progressed(old(self)),
            stmt_shaped(r.node),
        decreases old(self).remaining(), 19int,
    {
        let fn_tok = self.advance();
        self.skip_newlines();
        let name_tok = self.advance();
        let name = self.name_of(&name_tok);
        self.skip_newlines();
        let _ = self.expect(SyntaxKind::LParen);
        let params = self.parse_param_list();
        let _ = self.expect(SyntaxKind::RParen);
        self.skip_newlines();
        let return_ty = if self.at(SyntaxKind::Arrow) {
            self.advance();
            self.skip_newlines();
            Some(self.parse_type())
        } else {
            None
        };
        self.skip_newlines();
        let body = self.parse_block_expr();
        let span = fn_tok.span.merge(body.span);
        Spanned { node: Stmt::FnDef(FnDef { name, params, return_ty, body }), span }
    }

    fn parse_data_def(&mut self) -> (r: Spanned<Stmt>)
        requires
            old(self).wf(),
            old(self).kind_now() == SyntaxKind::Data,
        ensures
            final(self).moved_on(old(self)),
            final(self).progressed(old(self)),
            stmt_shaped(r.node),
        decreases old(self).remaining(), 19int,
    {
        let data_tok = self.advance();
        self.skip_newlines();
        let name_tok = self.advance();
        let name = self.name_of(&name_tok);
        self.skip_newlines();
        let _ = self.expect(SyntaxKind::LBrace);
        let fields = self.parse_field_list();
        let rbrace = self.expect(SyntaxKind::RBrace);
        let end_span = match rbrace {
            Some(t) => t.span,
            None => name.span,
        };
        Spanned { node: Stmt::DataDef(DataDef { name, fields }), span: data_tok.span.merge(end_span) }
    }

    fn parse_enum_def(&mut self) -> (r: Spanned<Stmt>)
        requires
            old(self).wf(),
            old(self).kind_now() == SyntaxKind::Enum,
        ensures
            final(self).moved_on(old(self)),
            final(self).progressed(old(self)),
            stmt_shaped(r.node),
        decreases old(self).remaining(), 19int,
    {
        let enum_tok = self.advance();
        self.skip_newlines();
        let name_tok = self.advance();
        let name = self.name_of(&name_tok);
        self.skip_newlines();
        let _ = self.expect(SyntaxKind::LBrace);
        let mut variants: Vec<Spanned<String>> = Vec::new();
        self.skip_newlines();
        while !self.at(SyntaxKind::RBrace) && !self.at_end()
            invariant
                self.moved_on(old(self)),
                self.remaining() < old(self).remaining(),
            decreases self.remaining(),
        {
            let var_tok = self.advance();
            variants.push(self.name_of(&var_tok));
            self.skip_newlines();
            if self.at(SyntaxKind::Comma) {
                self.advance();
            }
            self.skip_newlines();
        }
        let rbrace = self.expect(SyntaxKind::RBrace);
        let end_span = match rbrace {
            Some(t) => t.span,
            None => name.span,
        };
        Spanned { node: Stmt::EnumDef(EnumDef { name, variants }), span: enum_tok.span.merge(end_span) }
    }

    fn parse_expr(&mut self) -> (r: Spanned<Expr>)
        requires
            old(self).wf(),
        ensures
            final(self).moved_on(old(self)),
            final(self).progressed(old(self)),
            shaped(r.node),
        decreases old(self).remaining(), 18int,
    {
        self.parse_expr_bp(0)
    }

    /// Precedence climbing: operators that bind at least as tightly as
    /// `min_bp` are taken into this expression.
    fn parse_expr_bp(&mut self, min_bp: u8) -> (r: Spanned<Expr>)
        requires
            old(self).wf(),
        ensures
            final(self).moved_on(old(self)),
            final(self).progressed(old(self)),
            shaped(r.node),
            r.node matches Expr::BinOp { op, .. } ==> op_level(op.node) >= min_bp,
            final(self).kind_now() != SyntaxKind::Newline,
            infix_level(final(self).kind_now()) matches Some(l) ==> l < min_bp,
        decreases old(self).remaining(), 17int,
    {
        self.skip_newlines();
        let mut lhs = match prefix_bp(self.peek()) {
            Some(bp) => {
                let op_tok = self.advance();
                let op_kind = if op_tok.kind == SyntaxKind::Minus {
                    UnaryOpKind::Neg
                } else {
                    UnaryOpKind::Not
                };
                let operand = self.parse_expr_bp(bp);
                let span = op_tok.span.merge(operand.span);
                Spanned {
                    node: Expr::UnaryOp { op: Spanned { node: op_kind, span: op_tok.span }, operand: Box::new(operand) },
                    span,
                }
            },
            None => self.parse_primary(),
        };
        loop
            invariant
                self.moved_on(old(self)),
                self.progressed(old(self)),
                shaped(lhs.node),
                lhs.node matches Expr::BinOp { op, .. } ==> {
                    &&& op_level(op.node) >= min_bp
                    &&& self.kind_now() != SyntaxKind::Newline
                    &&& (infix_level(self.kind_now()) matches Some(l) ==> l <= op_level(op.node))
                },
            ensures
                self.moved_on(old(self)),
                self.progressed(old(self)),
                shaped(lhs.node),
                lhs.node matches Expr::BinOp { op, .. } ==> op_level(op.node) >= min_bp,
                self.kind_now() != SyntaxKind::Newline,
                infix_level(self.kind_now()) matches Some(l) ==> l < min_bp,
            decreases self.remaining(),
        {
            self.skip_newlines();
            lhs = self.parse_postfix(lhs);
            self.skip_newlines();
            if self.at(SyntaxKind::With) {
                self.advance();
                self.skip_newlines();
                let _ = self.expect(SyntaxKind::LBrace);
                let updates = self.parse_field_init_list();
                let rbrace = self.expect(SyntaxKind::RBrace);
                let end_span = match rbrace {
                    Some(t) => t.span,
                    None => lhs.span,
                };
                let span = lhs.span.merge(end_span);
                lhs = Spanned { node: Expr::WithUpdate { base: Box::new(lhs), updates }, span };
                continue;
            }
            let (l_bp, r_bp) = match infix_bp(self.peek()) {
                Some(bps) => bps,
                None => break,
            };
            if l_bp < min_bp {
                break;
            }
            let op_tok = self.advance();
            let op_kind = binop_of(op_tok.kind);
            self.skip_newlines();
            let rhs = self.parse_expr_bp(r_bp);
            let span = lhs.span.merge(rhs.span);
            lhs = Spanned {
                node: Expr::BinOp {
                    lhs: Box::new(lhs),
                    op: Spanned { node: op_kind, span: op_tok.span },
                    rhs: Box::new(rhs),
                },
                span,
            };
        }
        lhs
    }

    fn parse_primary(&mut self) -> (r: Spanned<Expr>)
        requires
            old(self).wf(),
        ensures
            final(self).moved_on(old(self)),
            final(self).progressed(old(self)),
            shaped(r.node),
            !(r.node is BinOp),
        decreases old(self).remaining(), 16int,
    {
        match self.peek() {
            SyntaxKind::IntLit | SyntaxKind::FloatLit | SyntaxKind::LengthLit | SyntaxKind::AngleLit
            | SyntaxKind::StringLit | SyntaxKind::True | SyntaxKind::False => self.parse_literal(),
            SyntaxKind::Ident => self.parse_ident_or_constructor(),
            SyntaxKind::LParen => self.parse_grouped_expr(),
            SyntaxKind::LBracket => self.parse_list_expr(),
            SyntaxKind::LBrace => self.parse_block_expr(),
            SyntaxKind::If => self.parse_if_expr(),
            SyntaxKind::Match => self.parse_match_expr(),
            SyntaxKind::Pipe => self.parse_lambda_expr(),
            _ => {
                let tok = self.advance();
                let mut message = owned("expected expression, found ");
                push_str(&mut message, tok.kind.name());
                self.push_error(message.as_str(), tok.span, ErrorKind::ExpectedExpr);
                Spanned { node: Expr::IntLit(0), span: tok.span }
            },
        }
    }

    /// A number, string or boolean literal.
    fn parse_literal(&mut self) -> (r: Spanned<Expr>)
        requires
            old(self).wf(),
        ensures
            final(self).moved_on(old(self)),
            final(self).progressed(old(self)),
            shaped(r.node),
            !(r.node is BinOp),
    {
        let tok = self.advance();
        let text = self.text(&tok);
        let node = match tok.kind {
            SyntaxKind::True => Expr::BoolLit(true),
            SyntaxKind::False => Expr::BoolLit(false),
            SyntaxKind::StringLit => {
                let n = text.as_str().unicode_len();
                if n >= 2 {
                    Expr::StringLit(unescape(text.as_str().substring_char(1, n - 1)))
                } else {
                    Expr::StringLit(String::new())
                }
            },
            SyntaxKind::IntLit => Expr::IntLit(parse_int(text.as_str().as_bytes())),
            SyntaxKind::FloatLit => {
                let b = text.as_str().as_bytes();
                Expr::FloatLit(parse_decimal_prefix(b, b.len()))
            },
            SyntaxKind::LengthLit => {
                let b = text.as_str().as_bytes();
                let k = split_number_unit(b);
                Expr::LengthLit(parse_decimal_prefix(b, k), length_unit_at(b, k))
            },
            _ => {
                let b = text.as_str().as_bytes();
                let k = split_number_unit(b);
                Expr::AngleLit(parse_decimal_prefix(b, k), angle_unit_at(b, k))
            },
        };
        Spanned { node, span: tok.span }
    }

    fn parse_postfix(&mut self, lhs: Spanned<Expr>) -> (r: Spanned<Expr>)
        requires
            old(self).wf(),
            shaped(lhs.node),
        ensures
            final(self).moved_on(old(self)),
            shaped(r.node),
            r.node is BinOp ==> r == lhs && final(self).pos == old(self).pos,
        decreases old(self).remaining(), 15int,
    {
        let ghost first = lhs;
        let mut lhs = lhs;
        loop
            invariant
                self.moved_on(old(self)),
                shaped(lhs.node),
                lhs.node is BinOp ==> lhs == first && self.pos == old(self).pos,
            decreases self.remaining(),
        {
            if self.at(SyntaxKind::LParen) {
                self.advance();
                let args = self.parse_arg_list();
                let rparen = self.expect(SyntaxKind::RParen);
                let end_span = match rparen {
                    Some(t) => t.span,
                    None => lhs.span,
                };
                let span = lhs.span.merge(end_span);
                lhs = Spanned { node: Expr::FnCall { func: Box::new(lhs), args }, span };
            } else if self.at(SyntaxKind::Dot) {
                self.advance();
                let field_tok = self.advance();
                let field = self.name_of(&field_tok);
                let span = lhs.span.merge(field_tok.span);
                lhs = Spanned { node: Expr::FieldAccess { object: Box::new(lhs), field }, span };
            } else {
                break;
            }
        }
        lhs
    }

    /// An identifier, or a data constructor `Name { field = value }` where
    /// the name starts with an uppercase letter.
    fn parse_ident_or_constructor(&mut self) -> (r: Spanned<Expr>)
        requires
            old(self).wf(),
            old(self).kind_now() == SyntaxKind::Ident,
        ensures
            final(self).moved_on(old(self)),
            final(self).progressed(old(self)),
            shaped(r.node),
            !(r.node is BinOp),
        decreases old(self).remaining(), 14int,
    {
        let name_tok = self.advance();
        let name = self.text(&name_tok);
        let name_span = name_tok.span;
        if self.at(SyntaxKind::LBrace) && starts_uppercase(name.as_str()) {
            self.advance();
            let fields = self.parse_field_init_list();
            let rbrace = self.expect(SyntaxKind::RBrace);
            let end_span = match rbrace {
                Some(t) => t.span,
                None => name_span,
            };
            return Spanned {
                node: Expr::DataConstructor { name: Spanned { node: name, span: name_span }, fields },
                span: name_span.merge(end_span),
            };
        }
        Spanned { node: Expr::Ident(name), span: name_span }
    }

    fn parse_grouped_expr(&mut self) -> (r: Spanned<Expr>)
        requires
            old(self).wf(),
            old(self).kind_now() == SyntaxKind::LParen,
        ensures
            final(self).moved_on(old(self)),
            final(self).progressed(old(self)),
            shaped(r.node),
            !(r.node is BinOp),
        decreases old(self).remaining(), 14int,
    {
        let lparen = self.advance();
        self.skip_newlines();
        let inner = self.parse_expr();
        self.skip_newlines();
        let rparen = self.expect(SyntaxKind::RParen);
        let end_span = match rparen {
            Some(t) => t.span,
            None => inner.span,
        };
        let span = lparen.span.merge(end_span);
        Spanned { node: Expr::Grouped(Box::new(inner)), span }
    }

    fn parse_list_expr(&mut self) -> (r: Spanned<Expr>)
        requires
            old(self).wf(),
            old(self).kind_now() == SyntaxKind::LBracket,
        ensures
            final(self).moved_on(old(self)),
            final(self).progressed(old(self)),
            shaped(r.node),
            !(r.node is BinOp),
        decreases old(self).remaining(), 14int,
    {
        let lbracket = self.advance();
        self.skip_newlines();
        let mut items: Vec<Spanned<Expr>> = Vec::new();
        while !self.at(SyntaxKind::RBracket) && !self.at_end()
            invariant
                self.moved_on(old(self)),
                self.remaining() < old(self).remaining(),
                forall|i: int| 0 <= i < items@.len() ==> shaped(#[trigger] items@[i].node),
            decreases self.remaining(),
        {
            items.push(self.parse_expr());
            self.skip_newlines();
            if self.at(SyntaxKind::Comma) {
                self.advance();
            }
            self.skip_newlines();
        }
        let rbracket = self.expect(SyntaxKind::RBracket);
        let end_span = match rbracket {
            Some(t) => t.span,
            None => lbracket.span,
        };
        Spanned { node: Expr::List(items), span: lbracket.span.merge(end_span) }
    }

    /// A block: its statements, the last of which, when it is an
    /// expression, becomes the block's value.
    fn parse_block_expr(&mut self) -> (r: Spanned<Expr>)
        requires
            old(self).wf(),
        ensures
            final(self).moved_on(old(self)),
            final(self).progressed(old(self)),
            shaped(r.node),
            !(r.node is BinOp),
        decreases old(self).remaining(), 14int,
    {
        let lbrace = self.advance();
        self.skip_newlines();
        let mut stmts: Vec<Spanned<Stmt>> = Vec::new();
        while !self.at(SyntaxKind::RBrace) && !self.at_end()
            invariant
                self.moved_on(old(self)),
                self.progressed(old(self)),
                self.kind_now() != SyntaxKind::Eof ==> self.remaining() < old(self).remaining(),
                forall|i: int| 0 <= i < stmts@.len() ==> stmt_shaped(#[trigger] stmts@[i].node),
            decreases self.remaining(),
        {
            self.skip_newlines();
            if self.at(SyntaxKind::RBrace) || self.at_end() {
                break;
            }
            let ghost head = self.remaining();
            match self.parse_stmt() {
                Some(stmt) => stmts.push(stmt),
                None => {},
            }
            self.skip_newlines();
            while self.at(SyntaxKind::Semicolon) || self.at(SyntaxKind::Newline)
                invariant
                    self.moved_on(old(self)),
                    self.remaining() < head,
                    head <= old(self).remaining(),
                    forall|i: int| 0 <= i < stmts@.len() ==> stmt_shaped(#[trigger] stmts@[i].node),
                decreases self.remaining(),
            {
                self.advance();
            }
        }
        let mut tail: Option<Box<Spanned<Expr>>> = None;
        let ends_with_expr = stmts.len() > 0 && matches!(stmts[stmts.len() - 1].node, Stmt::Expr(_));
        if ends_with_expr {
            match stmts.pop() {
                Some(last) => match last.node {
                    Stmt::Expr(e) => {
                        tail = Some(Box::new(e));
                    },
                    _ => {},
                },
                None => {},
            }
        }
        let rbrace = self.expect(SyntaxKind::RBrace);
        let end_span = match rbrace {
            Some(t) => t.span,
            None => lbrace.span,
        };
        Spanned { node: Expr::Block { stmts, tail }, span: lbrace.span.merge(end_span) }
    }

    fn parse_if_expr(&mut self) -> (r: Spanned<Expr>)
        requires
            old(self).wf(),
            old(self).kind_now() == SyntaxKind::If,
        ensures
            final(self).moved_on(old(self)),
            final(self).progressed(old(self)),
            shaped(r.node),
            !(r.node is BinOp),
        decreases old(self).remaining(), 14int,
    {
        let if_tok = self.advance();
        self.skip_newlines();
        let cond = self.parse_expr();
        self.skip_newlines();
        let then_branch = self.parse_block_expr();
        self.skip_newlines();
        let else_branch = if self.at(SyntaxKind::Else) {
            self.advance();
            self.skip_newlines();
            if self.at(SyntaxKind::If) {
                Some(Box::new(self.parse_if_expr()))
            } else {
                Some(Box::new(self.parse_block_expr()))
            }
        } else {
            None
        };
        let end_span = match &else_branch {
            Some(e) => e.span,
            None => then_branch.span,
        };
        let span = if_tok.span.merge(end_span);
        Spanned { node: Expr::If { cond: Box::new(cond), then_branch: Box::new(then_branch), else_branch }, span }
    }

    fn parse_match_expr(&mut self) -> (r: Spanned<Expr>)
        requires
            old(self).wf(),
            old(self).kind_now() == SyntaxKind::Match,
        ensures
            final(self).moved_on(old(self)),
            final(self).progressed(old(self)),
            shaped(r.node),
            !(r.node is BinOp),
        decreases old(self).remaining(), 14int,
    {
        let match_tok = self.advance();
        self.skip_newlines();
        let subject = self.parse_expr();
        self.skip_newlines();
        let _ = self.expect(SyntaxKind::LBrace);
        self.skip_newlines();
        let mut arms: Vec<MatchArm> = Vec::new();
        while !self.at(SyntaxKind::RBrace) && !self.at_end()
            invariant
                self.moved_on(old(self)),
                self.remaining() < old(self).remaining(),
                forall|i: int| 0 <= i < arms@.len() ==> shaped(#[trigger] arms@[i].body.node),
            decreases self.remaining(),
        {
            let pattern = self.parse_pattern();
            self.skip_newlines();
            let _ = self.expect(SyntaxKind::FatArrow);
            self.skip_newlines();
            let body = self.parse_expr();
            let span = pattern.span.merge(body.span);
            arms.push(MatchArm { pattern, body, span });
            self.skip_newlines();
            if self.at(SyntaxKind::Comma) {
                self.advance();
            }
            self.skip_newlines();
        }
        let rbrace = self.expect(SyntaxKind::RBrace);
        let end_span = match rbrace {
            Some(t) => t.span,
            None => match_tok.span,
        };
        Spanned { node: Expr::Match { subject: Box::new(subject), arms }, span: match_tok.span.merge(end_span) }
    }

    fn parse_lambda_expr(&mut self) -> (r: Spanned<Expr>)
        requires
            old(self).wf(),
            old(self).kind_now() == SyntaxKind::Pipe,
        ensures
            final(self).moved_on(old(self)),
            final(self).progressed(old(self)),
            shaped(r.node),
            !(r.node is BinOp),
        decreases old(self).remaining(), 14int,
    {
        let pipe_tok = self.advance();
        self.skip_newlines();
        let mut params: Vec<Param> = Vec::new();
        while !self.at(SyntaxKind::Pipe) && !self.at_end()
            invariant
                self.moved_on(old(self)),
                self.remaining() < old(self).remaining(),
                forall|i: int| 0 <= i < params@.len() ==> (#[trigger] params@[i].default) is None,
            decreases self.remaining(),
        {
            let name_tok = self.advance();
            let name = self.name_of(&name_tok);
            self.skip_newlines();
            let ty = if self.at(SyntaxKind::Colon) {
                self.advance();
                self.skip_newlines();
                Some(self.parse_type())
            } else {
                None
            };
            let end = match &ty {
                Some(t) => t.span,
                None => name.span,
            };
            let span = name.span.merge(end);
            params.push(Param { name, ty, default: None, span });
            self.skip_newlines();
            if self.at(SyntaxKind::Comma) {
                self.advance();
                self.skip_newlines();
            }
        }
        let _ = self.expect(SyntaxKind::Pipe);
        self.skip_newlines();
        let body = self.parse_expr();
        let span = pipe_tok.span.merge(body.span);
        Spanned { node: Expr::Lambda { params, body: Box::new(body) }, span }
    }

    /// A pattern: `_`, a name, or a literal.
    fn parse_pattern(&mut self) -> (r: Spanned<Pattern>)
        requires
            old(self).wf(),
        ensures
            final(self).moved_on(old(self)),
            final(self).progressed(old(self)),
    {
        match self.peek() {
            SyntaxKind::Ident => {
                let tok = self.advance();
                let text = self.text(&tok);
                let pattern = if str_eq(text.as_str(), "_") {
                    Pattern::Wildcard
                } else {
                    Pattern::Ident(text)
                };
                Spanned { node: pattern, span: tok.span }
            },
            SyntaxKind::IntLit | SyntaxKind::FloatLit | SyntaxKind::LengthLit | SyntaxKind::AngleLit
            | SyntaxKind::StringLit | SyntaxKind::True | SyntaxKind::False => {
                let expr = self.parse_literal();
                let span = expr.span;
                Spanned { node: Pattern::Literal(Box::new(expr)), span }
            },
            _ => {
                let tok = self.advance();
                let mut message = owned("expected pattern, found ");
                push_str(&mut message, tok.kind.name());
                self.push_error(message.as_str(), tok.span, ErrorKind::ExpectedExpr);
                Spanned { node: Pattern::Wildcard, span: tok.span }
            },
        }
    }

    /// Whether the current identifier is followed by `=`: a named argument.
    fn is_named_arg(&self) -> (r: bool)
        requires
            self.wf(),
        ensures
            r == (self.pos + 1 < self.tokens@.len() && self.tokens@[self.pos + 1].kind == SyntaxKind::Eq),
    {
        self.pos < self.tokens.len() - 1 && self.tokens[self.pos + 1].kind == SyntaxKind::Eq
    }

    fn parse_arg_list(&mut self) -> (r: Vec<Arg>)
        requires
            old(self).wf(),
        ensures
            final(self).moved_on(old(self)),
            forall|i: int| 0 <= i < r@.len() ==> shaped(#[trigger] r@[i].value.node),
        decreases old(self).remaining(), 19int,
    {
        let mut args: Vec<Arg> = Vec::new();
        self.skip_newlines();
        while !self.at(SyntaxKind::RParen) && !self.at_end()
            invariant
                self.moved_on(old(self)),
                forall|i: int| 0 <= i < args@.len() ==> shaped(#[trigger] args@[i].value.node),
            decreases self.remaining(),
        {
            let start_span = self.current_token().span;
            if self.peek() == SyntaxKind::Ident && self.is_named_arg() {
                let name_tok = self.advance();
                let name = self.name_of(&name_tok);
                let _ = self.expect(SyntaxKind::Eq);
                self.skip_newlines();
                let value = self.parse_expr();
                let span = start_span.merge(value.span);
                args.push(Arg { name: Some(name), value, span });
            } else {
                let value = self.parse_expr();
                let span = start_span.merge(value.span);
                args.push(Arg { name: None, value, span });
            }
            self.skip_newlines();
            if self.at(SyntaxKind::Comma) {
                self.advance();
            }
            self.skip_newlines();
        }
        args
    }

    fn parse_field_init_list(&mut self) -> (r: Vec<FieldInit>)
        requires
            old(self).wf(),
        ensures
            final(self).moved_on(old(self)),
            forall|i: int| 0 <= i < r@.len() ==> shaped(#[trigger] r@[i].value.node),
        decreases old(self).remaining(), 19int,
    {
        let mut fields: Vec<FieldInit> = Vec::new();
        self.skip_newlines();
        while !self.at(SyntaxKind::RBrace) && !self.at_end()
            invariant
                self.moved_on(old(self)),
                forall|i: int| 0 <= i < fields@.len() ==> shaped(#[trigger] fields@[i].value.node),
            decreases self.remaining(),
        {
            let name_tok = self.advance();
            let name = self.name_of(&name_tok);
            self.skip_newlines();
            let _ = self.expect(SyntaxKind::Eq);
            self.skip_newlines();
            let value = self.parse_expr();
            let span = name.span.merge(value.span);
            fields.push(FieldInit { name, value, span });
            self.skip_newlines();
            if self.at(SyntaxKind::Comma) {
                self.advance();
            }
            self.skip_newlines();
        }
        fields
    }

    fn parse_param_list(&mut self) -> (r: Vec<Param>)
        requires
            old(self).wf(),
        ensures
            final(self).moved_on(old(self)),
            forall|i: int| 0 <= i < r@.len() ==> (#[trigger] r@[i].default matches Some(d) ==> shaped(d.node)),
        decreases old(self).remaining(), 19int,
    {
        let mut params: Vec<Param> = Vec::new();
        self.skip_newlines();
        while !self.at(SyntaxKind::RParen) && !self.at_end()
            invariant
                self.moved_on(old(self)),
                forall|i: int| 0 <= i < params@.len() ==> (#[trigger] params@[i].default matches Some(d) ==> shaped(d.node)),
            decreases self.remaining(),
        {
            let name_tok = self.advance();
            let name = self.name_of(&name_tok);
            self.skip_newlines();
            let ty = if self.at(SyntaxKind::Colon) {
                self.advance();
                self.skip_newlines();
                Some(self.parse_type())
            } else {
                None
            };
            self.skip_newlines();
            let default = if self.at(SyntaxKind::Eq) {
                self.advance();
                self.skip_newlines();
                Some(self.parse_expr())
            } else {
                None
            };
            let end = match &default {
                Some(d) => d.span,
                None => match &ty {
                    Some(t) => t.span,
                    None => name.span,
                },
            };
            let span = name.span.merge(end);
            params.push(Param { name, ty, default, span });
            self.skip_newlines();
            if self.at(SyntaxKind::Comma) {
                self.advance();
            }
            self.skip_newlines();
        }
        params
    }

    fn parse_field_list(&mut self) -> (r: Vec<Field>)
        requires
            old(self).wf(),
        ensures
            final(self).moved_on(old(self)),
            forall|i: int| 0 <= i < r@.len() ==> (#[trigger] r@[i].default matches Some(d) ==> shaped(d.node)),
        decreases old(self).remaining(), 19int,
    {
        let mut fields: Vec<Field> = Vec::new();
        self.skip_newlines();
        while !self.at(SyntaxKind::RBrace) && !self.at_end()
            invariant
                self.moved_on(old(self)),
                forall|i: int| 0 <= i < fields@.len() ==> (#[trigger] fields@[i].default matches Some(d) ==> shaped(d.node)),
            decreases self.remaining(),
        {
            let name_tok = self.advance();
            let name = self.name_of(&name_tok);
            self.skip_newlines();
            let _ = self.expect(SyntaxKind::Colon);
            self.skip_newlines();
            let ty = self.parse_type();
            self.skip_newlines();
            let default = if self.at(SyntaxKind::Eq) {
                self.advance();
                self.skip_newlines();
                Some(self.parse_expr())
            } else {
                None
            };
            let end = match &default {
                Some(d) => d.span,
                None => ty.span,
            };
            let span = name.span.merge(end);
            fields.push(Field { name, ty, default, span });
            self.skip_newlines();
            if self.at(SyntaxKind::Comma) {
                self.advance();
            }
            self.skip_newlines();
        }
        fields
    }

    /// A type: a name, `List[T]`, or `Fn(A, B) -> C`.
    fn parse_type(&mut self) -> (r: Spanned<Type>)
        requires
            old(self).wf(),
        ensures
            final(self).moved_on(old(self)),
            final(self).progressed(old(self)),
        decreases old(self).remaining(), 1int,
    {
        let tok = self.advance();
        let name = self.text(&tok);
        let span = tok.span;
        if str_eq(name.as_str(), "List") && self.at(SyntaxKind::LBracket) {
            self.advance();
            self.skip_newlines();
            let inner = self.parse_type();
            self.skip_newlines();
            let rbracket = self.expect(SyntaxKind::RBracket);
            let end_span = match rbracket {
                Some(t) => t.span,
                None => inner.span,
            };
            return Spanned { node: Type::List(Box::new(inner)), span: span.merge(end_span) };
        }
        if str_eq(name.as_str(), "Fn") && self.at(SyntaxKind::LParen) {
            self.advance();
            self.skip_newlines();
            let mut params: Vec<Spanned<Type>> = Vec::new();
            while !self.at(SyntaxKind::RParen) && !self.at_end()
                invariant
                    self.moved_on(old(self)),
                    self.remaining() < old(self).remaining(),
                decreases self.remaining(),
            {
                params.push(self.parse_type());
                self.skip_newlines();
                if self.at(SyntaxKind::Comma) {
                    self.advance();
                    self.skip_newlines();
                }
            }
            let _ = self.expect(SyntaxKind::RParen);
            self.skip_newlines();
            let _ = self.expect(SyntaxKind::Arrow);
            self.skip_newlines();
            let ret = self.parse_type();
            let end_span = ret.span;
            return Spanned { node: Type::Fn { params, ret: Box::new(ret) }, span: span.merge(end_span) };
        }
        Spanned { node: Type::Named(name), span }
    }
}

/// Whether `s` starts with an ASCII uppercase letter.
fn starts_uppercase(s: &str) -> (r: bool)
    ensures
        r == upper_start(s@),
{
    if s.unicode_len() == 0 {
        return false;
    }
    let c = s.get_char(0);
    'A' <= c && c <= 'Z'
}

/// The value of a string of decimal digits.
pub open spec fn digits_value(t: Seq<u8>) -> nat
    decreases t.len(),
{
    if t.len() == 0 {
        0
    } else {
        digits_value(t.drop_last()) * 10 + (t.last() - '0' as u8) as nat
    }
}

proof fn lemma_digits_value_grows(t: Seq<u8>, i: int)
    requires
        0 <= i <= t.len(),
        digits_text(t) || t.len() == 0,
    ensures
        digits_value(t.take(i)) <= digits_value(t),
    decreases t.len(),
{
    if i < t.len() {
        assert(t.drop_last().take(i) =~= t.take(i));
        if t.drop_last().len() > 0 {
            assert(digits_text(t.drop_last())) by {
                assert forall|j: int| 0 <= j < t.drop_last().len() implies is_digit(#[trigger] t.drop_last()[j]) by {
                    assert(is_digit(t[j]));
                }
            }
        }
        lemma_digits_value_grows(t.drop_last(), i);
    } else {
        assert(t.take(i) =~= t);
    }
}

/// The integer a literal spells; 0 where it does not fit an `i64`.
fn parse_int(b: &[u8]) -> (r: i64)
    ensures
        digits_text(b@) ==> r == if digits_value(b@) <= i64::MAX { digits_value(b@) as i64 } else { 0 },
{
    let mut acc: i64 = 0;
    let mut i: usize = 0;
    while i < b.len()
        invariant
            i <= b@.len(),
            digits_text(b@) ==> acc == digits_value(b@.take(i as int)),
            0 <= acc,
        decreases b@.len() - i,
    {
        let c = b[i];
        if c < '0' as u8 || c > '9' as u8 {
            return 0;
        }
        let d = (c - '0' as u8) as i64;
        proof {
            assert(b@.take(i + 1).drop_last() =~= b@.take(i as int));
        }
        if acc > (9223372036854775807 - d) / 10 {
            proof {
                if digits_text(b@) {
                    lemma_digits_value_grows(b@, i + 1);
                }
            }
            return 0;
        }
        acc = acc * 10 + d;
        i = i + 1;
    }
    proof {
        assert(b@.take(i as int) =~= b@);
    }
    acc
}

/// Whether `t` has a `.`.
pub open spec fn has_dot(t: Seq<u8>) -> bool
    decreases t.len(),
{
    t.len() > 0 && (t.last() == '.' as u8 || has_dot(t.drop_last()))
}

/// Digits with at most one `.` among them.
pub open spec fn decimal_chars(t: Seq<u8>) -> bool
    decreases t.len(),
{
    t.len() == 0 || (decimal_chars(t.drop_last()) && (is_digit(t.last()) || (t.last() == '.' as u8
        && !has_dot(t.drop_last()))))
}

/// The digits of `t` read as one number, the `.` left out.
pub open spec fn mantissa_of(t: Seq<u8>) -> nat
    decreases t.len(),
{
    if t.len() == 0 {
        0
    } else if t.last() == '.' as u8 {
        mantissa_of(t.drop_last())
    } else {
        mantissa_of(t.drop_last()) * 10 + (t.last() - '0' as u8) as nat
    }
}

/// How many digits of `t` follow its `.`.
pub open spec fn fraction_len(t: Seq<u8>) -> nat
    decreases t.len(),
{
    if t.len() == 0 {
        0
    } else if has_dot(t.drop_last()) {
        fraction_len(t.drop_last()) + 1
    } else {
        0
    }
}

proof fn lemma_decimal_chars_prefix(t: Seq<u8>, i: int)
    requires
        decimal_chars(t),
        0 <= i < t.len(),
    ensures
        decimal_chars(t.take(i + 1)),
        is_digit(t[i]) || (t[i] == '.' as u8 && !has_dot(t.take(i))),
    decreases t.len(),
{
    if i + 1 < t.len() {
        assert(t.drop_last().take(i + 1) =~= t.take(i + 1));
        assert(t.drop_last().take(i) =~= t.take(i));
        lemma_decimal_chars_prefix(t.drop_last(), i);
    } else {
        assert(t.take(i + 1) =~= t);
        assert(t.drop_last() =~= t.take(i));
    }
}

proof fn lemma_mantissa_grows(t: Seq<u8>, i: int)
    requires
        decimal_chars(t),
        0 <= i <= t.len(),
    ensures
        mantissa_of(t.take(i)) <= mantissa_of(t),
    decreases t.len(),
{
    if i < t.len() {
        assert(t.drop_last().take(i) =~= t.take(i));
        lemma_mantissa_grows(t.drop_last(), i);
    } else {
        assert(t.take(i) =~= t);
    }
}

/// The decimal that `b[..k]` spells: digits with at most one `.`. Where
/// all its digits fit a `u64`, exactly: the digits read as one number,
/// scaled by the digits after the point. Where they do not, the trailing
/// digits that do not fit are dropped (the scale accounts for those before
/// the point), so a literal that is not zero never reads as zero.
fn parse_decimal_prefix(b: &[u8], k: usize) -> (r: Decimal)
    requires
        k <= b@.len(),
    ensures
        decimal_chars(b@.take(k as int)) && mantissa_of(b@.take(k as int)) <= u64::MAX
            && fraction_len(b@.take(k as int)) <= i32::MAX ==> r == (Decimal {
            mantissa: mantissa_of(b@.take(k as int)) as u64,
            scale: fraction_len(b@.take(k as int)) as i32,
        }),
        decimal_chars(b@.take(k as int)) && mantissa_of(b@.take(k as int)) > 0 && fraction_len(
            b@.take(k as int),
        ) <= i32::MAX ==> r.mantissa > 0,
{
    let ghost t = b@.take(k as int);
    let mut mantissa: u64 = 0;
    let mut scale: i32 = 0;
    let mut seen_dot = false;
    let mut full = false;
    let mut i: usize = 0;
    while i < k
        invariant
            i <= k <= b@.len(),
            t == b@.take(k as int),
            decimal_chars(t) ==> seen_dot == has_dot(t.take(i as int)),
            decimal_chars(t) && !full ==> mantissa == mantissa_of(t.take(i as int)),
            decimal_chars(t) && !full ==> scale == fraction_len(t.take(i as int)),
            decimal_chars(t) && full ==> mantissa_of(t.take(i as int)) > u64::MAX || fraction_len(t.take(i as int)) > i32::MAX,
            decimal_chars(t) && full ==> mantissa > 0 || fraction_len(t.take(i as int)) > i32::MAX,
            decimal_chars(t) && mantissa_of(t.take(i as int)) > 0 && fraction_len(t.take(i as int))
                <= i32::MAX ==> mantissa > 0,
            -(i as int) <= scale <= i,
        decreases k - i,
    {
        let c = b[i];
        proof {
            assert(t.take(i + 1).drop_last() =~= t.take(i as int));
            assert(t.take(i + 1).last() == c);
            if decimal_chars(t) {
                lemma_decimal_chars_prefix(t, i as int);
                lemma_mantissa_grows(t.take(i + 1), i as int);
                assert(t.take(i + 1).take(i as int) =~= t.take(i as int));
                if fraction_len(t.take(i as int)) > 0 {
                    assert(has_dot(t.take(i as int).drop_last()));
                    assert(has_dot(t.take(i as int)));
                }
            }
        }
        if c == '.' as u8 && !seen_dot {
            seen_dot = true;
        } else if c < '0' as u8 || c > '9' as u8 {
            return Decimal { mantissa: 0, scale: 0 };
        } else {
            let d = (c - '0' as u8) as u64;
            if !full && mantissa <= (18446744073709551615 - d) / 10 && !(seen_dot && scale == 2147483647) {
                mantissa = mantissa * 10 + d;
                if seen_dot {
                    scale = scale + 1;
                }
            } else {
                if !full {
                    full = true;
                }
                if !seen_dot && scale > -2147483647 {
                    scale = scale - 1;
                }
            }
        }
        i = i + 1;
    }
    proof {
        assert(t.take(i as int) =~= t);
    }
    Decimal { mantissa, scale }
}

/// Where the unit suffix of a literal starts: at its first letter, or at
/// its end when it has none.
pub fn split_number_unit(b: &[u8]) -> (r: usize)
    ensures
        r <= b@.len(),
        forall|i: int| 0 <= i < r ==> !is_alpha(#[trigger] b@[i]),
        r < b@.len() ==> is_alpha(b@[r as int]),
{
    let mut i: usize = 0;
    while i < b.len()
        invariant
            i <= b@.len(),
            forall|j: int| 0 <= j < i ==> !is_alpha(#[trigger] b@[j]),
        decreases b@.len() - i,
    {
        let c = b[i];
        if ('a' as u8 <= c && c <= 'z' as u8) || ('A' as u8 <= c && c <= 'Z' as u8) {
            return i;
        }
        i = i + 1;
    }
    i
}

/// The length unit spelled by `b[k..]`; millimetres where it is none.
fn length_unit_at(b: &[u8], k: usize) -> (r: LengthUnit)
    requires
        k <= b@.len(),
{
    let n = b.len() - k;
    if n == 2 && b[k] == 'c' as u8 && b[k + 1] == 'm' as u8 {
        LengthUnit::Cm
    } else if n == 1 && b[k] == 'm' as u8 {
        LengthUnit::M
    } else if n == 2 && b[k] == 'i' as u8 && b[k + 1] == 'n' as u8 {
        LengthUnit::In
    } else {
        LengthUnit::Mm
    }
}

/// The angle unit spelled by `b[k..]`; degrees where it is none.
fn angle_unit_at(b: &[u8], k: usize) -> (r: AngleUnit)
    requires
        k <= b@.len(),
{
    let n = b.len() - k;
    if n == 3 && b[k] == 'r' as u8 && b[k + 1] == 'a' as u8 && b[k + 2] == 'd' as u8 {
        AngleUnit::Rad
    } else {
        AngleUnit::Deg
    }
}

/// What an escape sequence `\c` stands for.
pub open spec fn escaped(c: char) -> Seq<char> {
    if c == 'n' {
        seq!['\n']
    } else if c == 't' {
        seq!['\t']
    } else if c == '\\' {
        seq!['\\']
    } else if c == '"' {
        seq!['"']
    } else {
        seq!['\\', c]
    }
}

/// The characters of a string literal's body with its escapes replaced:
/// `\n`, `\t`, `\\` and `\"` stand for one character, any other escape
/// stays as written, and a lone final backslash stays.
pub open spec fn unescaped(s: Seq<char>) -> Seq<char>
    decreases s.len(),
{
    if s.len() == 0 {
        seq![]
    } else if s[0] == '\\' {
        if s.len() == 1 {
            seq!['\\']
        } else {
            escaped(s[1]) + unescaped(s.skip(2))
        }
    } else {
        seq![s[0]] + unescaped(s.skip(1))
    }
}

/// Replaces the escape sequences of a string literal's body.
pub fn unescape(s: &str) -> (r: String)
    ensures
        r@ == unescaped(s@),
{
    let n = s.unicode_len();
    let mut r = String::new();
    let mut i: usize = 0;
    proof {
        assert(s@.skip(0) =~= s@);
        assert(r@ + unescaped(s@) =~= unescaped(s@));
    }
    while i < n
        invariant
            n == s@.len(),
            i <= n,
            r@ + unescaped(s@.skip(i as int)) == unescaped(s@),
        decreases n - i,
    {
        let c = s.get_char(i);
        let ghost rest = s@.skip(i as int);
        if c == '\\' {
            if i + 1 < n {
                let e = s.get_char(i + 1);
                if e == 'n' {
                    push_char(&mut r, '\n');
                } else if e == 't' {
                    push_char(&mut r, '\t');
                } else if e == '\\' {
                    push_char(&mut r, '\\');
                } else if e == '"' {
                    push_char(&mut r, '"');
                } else {
                    push_char(&mut r, '\\');
                    push_char(&mut r, e);
                }
                proof {
                    assert(rest.skip(2) =~= s@.skip(i + 2));
                    assert(rest[1] == e);
                }
                i = i + 2;
            } else {
                push_char(&mut r, '\\');
                proof {
                    assert(s@.skip(i + 1) =~= Seq::<char>::empty());
                }
                i = i + 1;
            }
        } else {
            push_char(&mut r, c);
            proof {
                assert(rest.skip(1) =~= s@.skip(i + 1));
            }
            i = i + 1;
        }
        proof {
            assert(r@ + unescaped(s@.skip(i as int)) =~= unescaped(s@));
        }
    }
    proof {
        assert(s@.skip(n as int) =~= Seq::<char>::empty());
        assert(r@ + seq![] =~= r@);
    }
    r
}

} // verus!