use vstd::prelude::*;
use vstd::string::StringSliceAdditionalSpecFns;
use crate::error::{ErrorKind, SyntaxError};
use crate::span::Span;
use crate::text::{owned, push_char, push_str};
use crate::token::{SyntaxKind, Token, keyword_bytes, keyword_of};

verus! {

/// Bytes of the delimiters, the quote and the backslash.
pub const LPAREN: u8 = 40;
pub const RPAREN: u8 = 41;
pub const LBRACE: u8 = 123;
pub const RBRACE: u8 = 125;
pub const LBRACKET: u8 = 91;
pub const RBRACKET: u8 = 93;
pub const QUOTE: u8 = 34;
pub const BACKSLASH: u8 = 92;

pub open spec fn is_digit(c: u8) -> bool {
    '0' as u8 <= c <= '9' as u8
}

pub open spec fn is_alpha(c: u8) -> bool {
    ('a' as u8 <= c <= 'z' as u8) || ('A' as u8 <= c <= 'Z' as u8)
}

pub open spec fn is_ident_start(c: u8) -> bool {
    is_alpha(c) || c == '_' as u8
}

pub open spec fn is_ident_continue(c: u8) -> bool {
    is_alpha(c) || is_digit(c) || c == '_' as u8
}

/// One or more decimal digits.
pub open spec fn digits_text(t: Seq<u8>) -> bool {
    t.len() > 0 && forall|i: int| 0 <= i < t.len() ==> is_digit(#[trigger] t[i])
}

/// Digits, a `.` at `k`, and digits again.
pub open spec fn float_split(t: Seq<u8>, k: int) -> bool {
    &&& 0 <= k < t.len()
    &&& t[k] == '.' as u8
    &&& digits_text(t.take(k))
    &&& digits_text(t.skip(k + 1))
}

pub open spec fn float_text(t: Seq<u8>) -> bool {
    exists|k: int| float_split(t, k)
}

/// An integer or a decimal number.
pub open spec fn number_text(t: Seq<u8>) -> bool {
    digits_text(t) || float_text(t)
}

/// The length units: `mm`, `cm`, `m`, `in`.
pub open spec fn length_unit(u: Seq<u8>) -> bool {
    ||| u.len() == 1 && u[0] == 'm' as u8
    ||| u.len() == 2 && u[1] == 'm' as u8 && (u[0] == 'm' as u8 || u[0] == 'c' as u8)
    ||| u.len() == 2 && u[0] == 'i' as u8 && u[1] == 'n' as u8
}

/// The angle units: `deg`, `rad`.
pub open spec fn angle_unit(u: Seq<u8>) -> bool {
    ||| u.len() == 3 && u[0] == 'd' as u8 && u[1] == 'e' as u8 && u[2] == 'g' as u8
    ||| u.len() == 3 && u[0] == 'r' as u8 && u[1] == 'a' as u8 && u[2] == 'd' as u8
}

/// A number whose first `n` bytes are the number and the rest the unit.
pub open spec fn unit_split(t: Seq<u8>, n: int, length: bool) -> bool {
    &&& 0 < n < t.len()
    &&& number_text(t.take(n))
    &&& if length { length_unit(t.skip(n)) } else { angle_unit(t.skip(n)) }
}

/// An identifier: a letter or `_`, then letters, digits and `_`.
pub open spec fn ident_text(t: Seq<u8>) -> bool {
    &&& t.len() > 0
    &&& is_ident_start(t[0])
    &&& forall|i: int| 0 <= i < t.len() ==> is_ident_continue(#[trigger] t[i])
}

/// The fixed text of each operator and delimiter kind.
pub open spec fn punct_text(k: SyntaxKind) -> Option<Seq<u8>> {
    match k {
        SyntaxKind::Plus => Some(seq!['+' as u8]),
        SyntaxKind::Minus => Some(seq!['-' as u8]),
        SyntaxKind::Star => Some(seq!['*' as u8]),
        SyntaxKind::Slash => Some(seq!['/' as u8]),
        SyntaxKind::Eq => Some(seq!['=' as u8]),
        SyntaxKind::EqEq => Some(seq!['=' as u8, '=' as u8]),
        SyntaxKind::BangEq => Some(seq!['!' as u8, '=' as u8]),
        SyntaxKind::Lt => Some(seq!['<' as u8]),
        SyntaxKind::LtEq => Some(seq!['<' as u8, '=' as u8]),
        SyntaxKind::Gt => Some(seq!['>' as u8]),
        SyntaxKind::GtEq => Some(seq!['>' as u8, '=' as u8]),
        SyntaxKind::AmpAmp => Some(seq!['&' as u8, '&' as u8]),
        SyntaxKind::PipePipe => Some(seq!['|' as u8, '|' as u8]),
        SyntaxKind::Bang => Some(seq!['!' as u8]),
        SyntaxKind::PipeGt => Some(seq!['|' as u8, '>' as u8]),
        SyntaxKind::Pipe => Some(seq!['|' as u8]),
        SyntaxKind::Dot => Some(seq!['.' as u8]),
        SyntaxKind::Arrow => Some(seq!['-' as u8, '>' as u8]),
        SyntaxKind::Colon => Some(seq![':' as u8]),
        SyntaxKind::Comma => Some(seq![',' as u8]),
        SyntaxKind::FatArrow => Some(seq!['=' as u8, '>' as u8]),
        SyntaxKind::Semicolon => Some(seq![';' as u8]),
        SyntaxKind::LParen => Some(seq![LPAREN]),
        SyntaxKind::RParen => Some(seq![RPAREN]),
        SyntaxKind::LBrace => Some(seq![LBRACE]),
        SyntaxKind::RBrace => Some(seq![RBRACE]),
        SyntaxKind::LBracket => Some(seq![LBRACKET]),
        SyntaxKind::RBracket => Some(seq![RBRACKET]),
        SyntaxKind::Newline => Some(seq!['\n' as u8]),
        _ => None,
    }
}

/// Whether `t` is a text that a token of kind `k` can cover.
pub open spec fn token_text(k: SyntaxKind, t: Seq<u8>) -> bool {
    match k {
        SyntaxKind::IntLit => digits_text(t),
        SyntaxKind::FloatLit => float_text(t),
        SyntaxKind::LengthLit => exists|n: int| unit_split(t, n, true),
        SyntaxKind::AngleLit => exists|n: int| unit_split(t, n, false),
        SyntaxKind::StringLit => t.len() >= 2 && t[0] == QUOTE && t[t.len() - 1] == QUOTE,
        SyntaxKind::Ident => ident_text(t) && keyword_of(t) is None,
        SyntaxKind::Let | SyntaxKind::Data | SyntaxKind::Fn | SyntaxKind::Enum | SyntaxKind::If
        | SyntaxKind::Else | SyntaxKind::Match | SyntaxKind::With | SyntaxKind::True
        | SyntaxKind::False => keyword_of(t) == Some(k),
        SyntaxKind::Error => t.len() > 0,
        SyntaxKind::Eof => false,
        _ => punct_text(k) == Some(t),
    }
}

/// Where the run of letters that starts at `i` ends.
pub open spec fn alpha_run_end(b: Seq<u8>, i: int) -> int
    decreases b.len() - i,
{
    if 0 <= i < b.len() && is_alpha(b[i]) {
        alpha_run_end(b, i + 1)
    } else {
        i
    }
}

/// The byte at `i` exists and satisfies `p`.
pub open spec fn byte_is(b: Seq<u8>, i: int, p: spec_fn(u8) -> bool) -> bool {
    0 <= i < b.len() && p(b[i])
}

/// A unit suffix: a length or an angle unit.
pub open spec fn unit_text(u: Seq<u8>) -> bool {
    length_unit(u) || angle_unit(u)
}

/// Each token is as long as it can be: a number takes every digit (and a
/// fraction where a digit follows the `.`), and a unit suffix only where
/// the whole run of letters after it is a unit (`10min` is the number `10`
/// and then a name); a literal with a unit, a name or a keyword is not
/// followed by a letter (or, for names, a digit or `_`); a one-character
/// operator is not followed by what would make it a two-character one.
pub open spec fn token_maximal(b: Seq<u8>, t: Token) -> bool {
    let e = t.span.end as int;
    match t.kind {
        SyntaxKind::IntLit => {
            &&& !byte_is(b, e, |c: u8| is_digit(c))
            &&& !(byte_is(b, e, |c: u8| c == '.' as u8) && byte_is(b, e + 1, |c: u8| is_digit(c)))
            &&& !unit_text(b.subrange(e, alpha_run_end(b, e)))
        },
        SyntaxKind::FloatLit => {
            &&& !byte_is(b, e, |c: u8| is_digit(c))
            &&& !unit_text(b.subrange(e, alpha_run_end(b, e)))
        },
        SyntaxKind::LengthLit | SyntaxKind::AngleLit => !byte_is(b, e, |c: u8| is_alpha(c)),
        SyntaxKind::Minus => !byte_is(b, e, |c: u8| c == '>' as u8),
        SyntaxKind::Eq => !byte_is(b, e, |c: u8| c == '=' as u8 || c == '>' as u8),
        SyntaxKind::Bang | SyntaxKind::Lt | SyntaxKind::Gt => !byte_is(b, e, |c: u8| c == '=' as u8),
        SyntaxKind::Pipe => !byte_is(b, e, |c: u8| c == '>' as u8 || c == '|' as u8),
        SyntaxKind::Slash => !byte_is(b, e, |c: u8| c == '/' as u8 || c == '*' as u8),
        SyntaxKind::Ident | SyntaxKind::Let | SyntaxKind::Data | SyntaxKind::Fn | SyntaxKind::Enum
        | SyntaxKind::If | SyntaxKind::Else | SyntaxKind::Match | SyntaxKind::With | SyntaxKind::True
        | SyntaxKind::False => !byte_is(b, e, |c: u8| is_ident_continue(c)),
        _ => true,
    }
}

/// Where a string literal whose body starts at `p` ends (just after its
/// closing quote); a backslash escapes the byte after it. `None` where the
/// input ends first.
pub open spec fn string_end(b: Seq<u8>, p: int) -> Option<int>
    decreases b.len() - p,
{
    if p < 0 || p >= b.len() {
        None
    } else if b[p] == QUOTE {
        Some(p + 1)
    } else if b[p] == BACKSLASH {
        if p + 1 < b.len() { string_end(b, p + 2) } else { None }
    } else {
        string_end(b, p + 1)
    }
}

/// A byte that starts a token, or blanks or a comment.
pub open spec fn starts_something(c: u8) -> bool {
    ||| c == ' ' as u8 || c == '\t' as u8 || c == '\r' as u8 || c == '\n' as u8
    ||| c == LPAREN || c == RPAREN || c == LBRACE || c == RBRACE || c == LBRACKET || c == RBRACKET
    ||| c == '+' as u8 || c == '*' as u8 || c == '.' as u8 || c == ':' as u8 || c == ',' as u8
        || c == ';' as u8
    ||| c == '-' as u8 || c == '=' as u8 || c == '!' as u8 || c == '<' as u8 || c == '>' as u8
        || c == '|' as u8 || c == '/' as u8 || c == QUOTE
    ||| is_digit(c) || is_ident_start(c)
}

/// The kind of error an `Error` token that starts at `s` stands for.
pub open spec fn error_kind_at(b: Seq<u8>, s: int) -> ErrorKind {
    if b[s] == QUOTE {
        ErrorKind::UnterminatedString
    } else if b[s] == '/' as u8 {
        ErrorKind::UnterminatedBlockComment
    } else {
        ErrorKind::UnexpectedChar
    }
}

/// What an `Error` token covers: one byte at which nothing can start (or
/// an `&` that is not `&&`); a `"` whose string runs to the end of the
/// input; or a `/*` whose comment runs to the end of the input.
pub open spec fn error_shape(b: Seq<u8>, s: int, e: int) -> bool {
    &&& 0 <= s < b.len()
    &&& match error_kind_at(b, s) {
        ErrorKind::UnterminatedString => e == b.len() && string_end(b, s + 1) is None,
        ErrorKind::UnterminatedBlockComment => {
            &&& s + 1 < b.len() && b[s + 1] == '*' as u8
            &&& e == b.len()
            &&& comment_end(b, s + 2, 1) is None
        },
        _ => e == s + 1 && (!starts_something(b[s]) || (b[s] == '&' as u8 && !(s + 1 < b.len()
            && b[s + 1] == '&' as u8))),
    }
}

/// A token that covers a well-formed, non-empty stretch of `b`, as long as
/// it can be; a string literal ends at its first unescaped closing quote,
/// and an error token has one of the error shapes.
pub open spec fn token_in(b: Seq<u8>, t: Token) -> bool {
    &&& t.span.start < t.span.end <= b.len()
    &&& token_text(t.kind, b.subrange(t.span.start as int, t.span.end as int))
    &&& token_maximal(b, t)
    &&& t.kind == SyntaxKind::StringLit ==> string_end(b, t.span.start + 1) == Some(t.span.end as int)
    &&& t.kind == SyntaxKind::Error ==> error_shape(b, t.span.start as int, t.span.end as int)
}

/// Where a line comment whose text starts at `i` ends: at the first
/// newline, or at the end of the input.
pub open spec fn line_end(b: Seq<u8>, i: int) -> int
    decreases b.len() - i,
{
    if i < 0 || i >= b.len() || b[i] == '\n' as u8 {
        if i < 0 { 0 } else { i }
    } else {
        line_end(b, i + 1)
    }
}

/// Where a block comment ends, scanning from `p` with `depth` comments
/// open: `/*` opens one more, `*/` closes one; `None` where the input ends
/// first.
pub open spec fn comment_end(b: Seq<u8>, p: int, depth: nat) -> Option<int>
    decreases b.len() - p,
{
    if depth == 0 {
        Some(p)
    } else if p < 0 || p >= b.len() {
        None
    } else if p + 1 < b.len() && b[p] == '/' as u8 && b[p + 1] == '*' as u8 {
        comment_end(b, p + 2, depth + 1)
    } else if p + 1 < b.len() && b[p] == '*' as u8 && b[p + 1] == '/' as u8 {
        comment_end(b, p + 2, (depth - 1) as nat)
    } else {
        comment_end(b, p + 1, depth)
    }
}

/// Where the piece of trivia that starts at `i` ends: one blank (space,
/// tab, carriage return), a line comment up to its newline, or a whole
/// (nested) block comment.
pub open spec fn trivia_piece(b: Seq<u8>, i: int) -> Option<int> {
    if i < 0 || i >= b.len() {
        None
    } else if b[i] == ' ' as u8 || b[i] == '\t' as u8 || b[i] == '\r' as u8 {
        Some(i + 1)
    } else if i + 1 < b.len() && b[i] == '/' as u8 && b[i + 1] == '/' as u8 {
        Some(line_end(b, i + 2))
    } else if i + 1 < b.len() && b[i] == '/' as u8 && b[i + 1] == '*' as u8 {
        comment_end(b, i + 2, 1)
    } else {
        None
    }
}

/// `b[i..j]` is nothing but blanks and comments.
pub open spec fn trivia(b: Seq<u8>, i: int, j: int) -> bool
    decreases j - i,
{
    if i == j {
        true
    } else if i > j {
        false
    } else {
        match trivia_piece(b, i) {
            Some(k) => i < k <= j && trivia(b, k, j),
            None => false,
        }
    }
}

/// Before the first token and between consecutive tokens there is nothing
/// but blanks and comments.
pub open spec fn gaps_are_trivia(b: Seq<u8>, toks: Seq<Token>) -> bool {
    &&& toks.len() > 0 ==> trivia(b, 0, toks[0].span.start as int)
    &&& forall|n: int| 0 <= n < toks.len() - 1 ==> trivia(b, #[trigger] toks[n].span.end as int, toks[n + 1].span.start as int)
}

proof fn lemma_line_end_bounds(b: Seq<u8>, i: int)
    requires
        0 <= i,
    ensures
        i <= line_end(b, i) <= b.len() || (i > b.len() && line_end(b, i) == i),
    decreases b.len() - i,
{
    if i < b.len() && b[i] != '\n' as u8 {
        lemma_line_end_bounds(b, i + 1);
    }
}

/// Trivia followed by trivia is trivia.
proof fn lemma_trivia_concat(b: Seq<u8>, i: int, j: int, k: int)
    requires
        trivia(b, i, j),
        trivia(b, j, k),
    ensures
        trivia(b, i, k),
    decreases j - i,
{
    if i < j {
        let m = trivia_piece(b, i).unwrap();
        lemma_trivia_concat(b, m, j, k);
        lemma_trivia_le(b, j, k);
    }
}

proof fn lemma_trivia_le(b: Seq<u8>, i: int, j: int)
    requires
        trivia(b, i, j),
    ensures
        i <= j,
    decreases j - i,
{
}

/// A token after trivia keeps every gap trivia.
proof fn lemma_gaps_push(b: Seq<u8>, toks: Seq<Token>, t: Token)
    requires
        gaps_are_trivia(b, toks),
        trivia(b, last_end(toks), t.span.start as int),
    ensures
        gaps_are_trivia(b, toks.push(t)),
{
    let all = toks.push(t);
    assert forall|n: int| 0 <= n < all.len() - 1 implies trivia(
        b,
        #[trigger] all[n].span.end as int,
        all[n + 1].span.start as int,
    ) by {
        if n < toks.len() - 1 {
            assert(all[n] == toks[n] && all[n + 1] == toks[n + 1]);
        } else {
            assert(all[n] == toks.last());
        }
    }
    if toks.len() == 0 {
        assert(all[0] == t);
    } else {
        assert(all[0] == toks[0]);
    }
}

/// Trivia extended by one more piece is trivia.
proof fn lemma_trivia_piece(b: Seq<u8>, i: int, j: int, k: int)
    requires
        trivia(b, i, j),
        trivia_piece(b, j) == Some(k),
        j < k,
    ensures
        trivia(b, i, k),
{
    assert(trivia(b, k, k));
    assert(trivia(b, j, k));
    lemma_trivia_concat(b, i, j, k);
}

/// Tokens in source order, each well-formed, none reaching past `pos`.
pub open spec fn tokens_in(b: Seq<u8>, toks: Seq<Token>, pos: int) -> bool {
    &&& forall|i: int| 0 <= i < toks.len() ==> #[trigger] token_in(b, toks[i])
    &&& forall|i: int| 0 <= i < toks.len() ==> #[trigger] toks[i].span.end <= last_end(toks)
    &&& last_end(toks) <= pos
    &&& forall|i: int| 0 <= i < toks.len() - 1 ==> #[trigger] toks[i].span.end <= toks[i + 1].span.start
}

/// Where the last token ends (0 before the first one).
pub open spec fn last_end(toks: Seq<Token>) -> int {
    if toks.len() == 0 { 0 } else { toks.last().span.end as int }
}

/// The spans of the `Error` tokens, in order.
pub open spec fn error_spans(toks: Seq<Token>) -> Seq<Span>
    decreases toks.len(),
{
    if toks.len() == 0 {
        seq![]
    } else {
        let rest = error_spans(toks.drop_last());
        if toks.last().kind == SyntaxKind::Error { rest.push(toks.last().span) } else { rest }
    }
}

/// The kinds of error the lexer reports.
pub open spec fn lexer_error_kind(k: ErrorKind) -> bool {
    k == ErrorKind::UnexpectedChar || k == ErrorKind::UnterminatedString
        || k == ErrorKind::UnterminatedBlockComment
}

/// The spans of the errors, in order.
pub open spec fn spans_of(errs: Seq<SyntaxError>) -> Seq<Span> {
    errs.map_values(|e: SyntaxError| e.span)
}

/// What `lex` returns for the bytes `b`: well-formed tokens in order, with
/// nothing but blanks and comments between them, then exactly one `Eof` at
/// the end of the input; one error for each `Error` token, with the same
/// span and in the same order, its kind the one its text shows.
pub open spec fn lexed(b: Seq<u8>, toks: Seq<Token>, errs: Seq<SyntaxError>) -> bool {
    &&& toks.len() >= 1
    &&& toks.last() == (Token { kind: SyntaxKind::Eof, span: Span { start: b.len() as u32, end: b.len() as u32 } })
    &&& tokens_in(b, toks.drop_last(), b.len() as int)
    &&& gaps_are_trivia(b, toks)
    &&& error_spans(toks) == spans_of(errs)
    &&& forall|k: int| 0 <= k < errs.len() ==> lexer_error_kind(#[trigger] errs[k].kind)
    &&& forall|k: int| 0 <= k < errs.len() ==> #[trigger] errs[k].kind == error_kind_at(b, errs[k].span.start as int)
}

/// Lexes `source` into tokens and the syntax errors met on the way.
pub fn lex(source: &str) -> (r: (Vec<Token>, Vec<SyntaxError>))
    requires
        source.spec_bytes().len() < u32::MAX,
    ensures
        lexed(source.spec_bytes(), r.0@, r.1@),
{
    let mut lexer = Lexer::new(source);
    lexer.run();
    (lexer.tokens, lexer.errors)
}

struct Lexer<'a> {
    bytes: &'a [u8],
    pos: u32,
    tokens: Vec<Token>,
    errors: Vec<SyntaxError>,
}

impl<'a> Lexer<'a> {
    spec fn wf(&self) -> bool {
        &&& self.bytes@.len() < u32::MAX
        &&& self.pos <= self.bytes@.len()
        &&& tokens_in(self.bytes@, self.tokens@, self.pos as int)
        &&& gaps_are_trivia(self.bytes@, self.tokens@)
        &&& error_spans(self.tokens@) == spans_of(self.errors@)
        &&& forall|k: int| 0 <= k < self.errors@.len() ==> lexer_error_kind(#[trigger] self.errors@[k].kind)
        &&& forall|k: int| 0 <= k < self.errors@.len() ==> #[trigger] self.errors@[k].kind == error_kind_at(self.bytes@, self.errors@[k].span.start as int)
    }

    spec fn text(&self, start: int) -> Seq<u8> {
        self.bytes@.subrange(start, self.pos as int)
    }

    fn new(source: &'a str) -> (r: Lexer<'a>)
        requires
            source.spec_bytes().len() < u32::MAX,
        ensures
            r.wf(),
            r.pos == 0,
            r.bytes@ == source.spec_bytes(),
            r.tokens@.len() == 0,
    {
        let r = Lexer { bytes: source.as_bytes(), pos: 0, tokens: Vec::new(), errors: Vec::new() };
        proof {
            assert(spans_of(r.errors@) =~= Seq::<Span>::empty());
        }
        r
    }

    fn run(&mut self)
        requires
            old(self).wf(),
            old(self).pos == 0,
            old(self).tokens@.len() == 0,
        ensures
            lexed(final(self).bytes@, final(self).tokens@, final(self).errors@),
            final(self).bytes@ == old(self).bytes@,
    {
        while !self.at_end()
            invariant
                self.wf(),
                self.bytes@ == old(self).bytes@,
                trivia(self.bytes@, last_end(self.tokens@), self.pos as int),
            decreases self.bytes@.len() - self.pos,
        {
            self.scan_token();
        }
        let ghost before = self.tokens@;
        let eof = Token::new(SyntaxKind::Eof, Span::point(self.pos));
        self.tokens.push(eof);
        proof {
            assert(self.tokens@.drop_last() =~= before);
            lemma_gaps_push(self.bytes@, before, eof);
        }
    }

    fn peek(&self) -> (r: Option<u8>)
        ensures
            self.pos < self.bytes@.len() ==> r == Some(self.bytes@[self.pos as int]),
            self.pos >= self.bytes@.len() ==> r is None,
    {
        if (self.pos as usize) < self.bytes.len() {
            Some(self.bytes[self.pos as usize])
        } else {
            None
        }
    }

    fn peek_next(&self) -> (r: Option<u8>)
        requires
            self.bytes@.len() < u32::MAX,
        ensures
            self.pos + 1 < self.bytes@.len() ==> r == Some(self.bytes@[self.pos + 1]),
            self.pos + 1 >= self.bytes@.len() ==> r is None,
    {
        if self.bytes.len() >= 1 && (self.pos as usize) < self.bytes.len() - 1 {
            Some(self.bytes[self.pos as usize + 1])
        } else {
            None
        }
    }

    fn advance(&mut self) -> (c: u8)
        requires
            old(self).wf(),
            old(self).pos < old(self).bytes@.len(),
        ensures
            final(self).wf(),
            c == old(self).bytes@[old(self).pos as int],
            final(self).pos == old(self).pos + 1,
            final(self).bytes == old(self).bytes,
            final(self).tokens == old(self).tokens,
            final(self).errors == old(self).errors,
    {
        let c = self.bytes[self.pos as usize];
        self.pos = self.pos + 1;
        c
    }

    fn at_end(&self) -> (r: bool)
        ensures
            r == (self.pos >= self.bytes@.len()),
    {
        self.pos as usize >= self.bytes.len()
    }

    fn emit(&mut self, kind: SyntaxKind, start: u32)
        requires
            old(self).wf(),
            last_end(old(self).tokens@) <= start < old(self).pos,
            token_text(kind, old(self).text(start as int)),
            token_maximal(old(self).bytes@, Token { kind, span: Span { start, end: old(self).pos } }),
            kind != SyntaxKind::Error,
            trivia(old(self).bytes@, last_end(old(self).tokens@), start as int),
            kind == SyntaxKind::StringLit ==> string_end(old(self).bytes@, start + 1) == Some(old(self).pos as int),
        ensures
            final(self).wf(),
            final(self).pos == old(self).pos,
            final(self).bytes == old(self).bytes,
            last_end(final(self).tokens@) == final(self).pos,
    {
        let ghost before = self.tokens@;
        let t = Token::new(kind, Span::new(start, self.pos));
        proof {
            assert(token_in(self.bytes@, t));
        }
        self.tokens.push(t);
        proof {
            assert(self.tokens@.drop_last() =~= before);
            assert(token_in(self.bytes@, t));
            lemma_gaps_push(self.bytes@, before, t);
        }
    }

    fn error(&mut self, message: &str, start: u32, kind: ErrorKind)
        requires
            old(self).wf(),
            last_end(old(self).tokens@) <= start < old(self).pos,
            lexer_error_kind(kind),
            trivia(old(self).bytes@, last_end(old(self).tokens@), start as int),
            error_shape(old(self).bytes@, start as int, old(self).pos as int),
            kind == error_kind_at(old(self).bytes@, start as int),
        ensures
            final(self).wf(),
            final(self).pos == old(self).pos,
            final(self).bytes == old(self).bytes,
            last_end(final(self).tokens@) == final(self).pos,
    {
        let ghost toks = self.tokens@;
        let ghost errs = self.errors@;
        let span = Span::new(start, self.pos);
        self.errors.push(SyntaxError::new(message, span, kind));
        let t = Token::new(SyntaxKind::Error, span);
        self.tokens.push(t);
        proof {
            lemma_gaps_push(self.bytes@, toks, t);
            assert(self.tokens@.drop_last() =~= toks);
            assert(spans_of(self.errors@) =~= spans_of(errs).push(span));
            assert(token_in(self.bytes@, self.tokens@.last()));
        }
    }

    /// Emits a one-byte token.
    fn emit1(&mut self, kind: SyntaxKind, start: u32)
        requires
            old(self).wf(),
            last_end(old(self).tokens@) <= start,
            trivia(old(self).bytes@, last_end(old(self).tokens@), start as int),
            old(self).pos == start + 1,
            punct_text(kind) == Some(seq![old(self).bytes@[start as int]]),
            token_maximal(old(self).bytes@, Token { kind, span: Span { start, end: old(self).pos } }),
        ensures
            final(self).wf(),
            last_end(final(self).tokens@) == final(self).pos,
            final(self).pos == old(self).pos,
            final(self).bytes == old(self).bytes,
    {
        proof {
            assert(self.text(start as int) =~= seq![self.bytes@[start as int]]);
        }
        self.emit(kind, start);
    }

    /// Emits a two-byte token.
    fn emit2(&mut self, kind: SyntaxKind, start: u32)
        requires
            old(self).wf(),
            last_end(old(self).tokens@) <= start,
            trivia(old(self).bytes@, last_end(old(self).tokens@), start as int),
            old(self).pos == start + 2,
            punct_text(kind) == Some(seq![old(self).bytes@[start as int], old(self).bytes@[start + 1]]),
        ensures
            final(self).wf(),
            last_end(final(self).tokens@) == final(self).pos,
            final(self).pos == old(self).pos,
            final(self).bytes == old(self).bytes,
    {
        proof {
            assert(self.text(start as int) =~= seq![self.bytes@[start as int], self.bytes@[start + 1]]);
        }
        self.emit(kind, start);
    }

    /// Scans one token, or skips trivia, from a position before the end.
    fn scan_token(&mut self)
        requires
            old(self).wf(),
            old(self).pos < old(self).bytes@.len(),
            trivia(old(self).bytes@, last_end(old(self).tokens@), old(self).pos as int),
        ensures
            final(self).wf(),
            trivia(final(self).bytes@, last_end(final(self).tokens@), final(self).pos as int),
            final(self).pos > old(self).pos,
            final(self).bytes == old(self).bytes,
    {
        let ghost p0 = self.pos as int;
        self.skip_whitespace();
        proof {
            lemma_trivia_concat(self.bytes@, last_end(self.tokens@), p0, self.pos as int);
        }
        if self.at_end() {
            return;
        }
        let start = self.pos;
        let c = self.advance();
        match single_byte_kind(c) {
            Some(k) => {
                self.emit1(k, start);
                return;
            },
            None => {},
        }
        if c == '-' as u8 {
            if self.peek() == Some('>' as u8) {
                self.advance();
                self.emit2(SyntaxKind::Arrow, start);
            } else {
                self.emit1(SyntaxKind::Minus, start);
            }
            return;
        }
        if c == '=' as u8 {
            if self.peek() == Some('=' as u8) {
                self.advance();
                self.emit2(SyntaxKind::EqEq, start);
            } else if self.peek() == Some('>' as u8) {
                self.advance();
                self.emit2(SyntaxKind::FatArrow, start);
            } else {
                self.emit1(SyntaxKind::Eq, start);
            }
            return;
        }
        if c == '!' as u8 || c == '<' as u8 || c == '>' as u8 {
            let (plain, with_eq) = if c == '!' as u8 {
                (SyntaxKind::Bang, SyntaxKind::BangEq)
            } else if c == '<' as u8 {
                (SyntaxKind::Lt, SyntaxKind::LtEq)
            } else {
                (SyntaxKind::Gt, SyntaxKind::GtEq)
            };
            if self.peek() == Some('=' as u8) {
                self.advance();
                self.emit2(with_eq, start);
            } else {
                self.emit1(plain, start);
            }
            return;
        }
        if c == '&' as u8 {
            if self.peek() == Some('&' as u8) {
                self.advance();
                self.emit2(SyntaxKind::AmpAmp, start);
            } else {
                self.error("expected '&&'", start, ErrorKind::UnexpectedChar);
            }
            return;
        }
        if c == '|' as u8 {
            if self.peek() == Some('>' as u8) {
                self.advance();
                self.emit2(SyntaxKind::PipeGt, start);
            } else if self.peek() == Some('|' as u8) {
                self.advance();
                self.emit2(SyntaxKind::PipePipe, start);
            } else {
                self.emit1(SyntaxKind::Pipe, start);
            }
            return;
        }
        if c == '/' as u8 {
            if self.peek() == Some('/' as u8) {
                self.skip_line_comment();
                proof {
                    lemma_trivia_piece(self.bytes@, last_end(self.tokens@), start as int, self.pos as int);
                }
            } else if self.peek() == Some('*' as u8) {
                self.skip_block_comment(start);
                proof {
                    if last_end(self.tokens@) != self.pos {
                        lemma_trivia_piece(self.bytes@, last_end(self.tokens@), start as int, self.pos as int);
                    }
                }
            } else {
                self.emit1(SyntaxKind::Slash, start);
            }
            return;
        }
        if c == QUOTE {
            self.scan_string(start);
        } else if is_ascii_digit(c) {
            self.scan_number(start);
        } else if is_ascii_alpha(c) || c == '_' as u8 {
            self.scan_ident_or_keyword(start);
        } else {
            let mut message = owned("unexpected character '");
            push_char(&mut message, c as char);
            push_str(&mut message, "'");
            self.error(message.as_str(), start, ErrorKind::UnexpectedChar);
        }
    }

    /// Skips spaces, tabs and carriage returns.
    fn skip_whitespace(&mut self)
        requires
            old(self).wf(),
        ensures
            final(self).wf(),
            final(self).pos >= old(self).pos,
            final(self).bytes == old(self).bytes,
            final(self).tokens == old(self).tokens,
            trivia(old(self).bytes@, old(self).pos as int, final(self).pos as int),
            final(self).pos < final(self).bytes@.len() ==> {
                let c = final(self).bytes@[final(self).pos as int];
                c != ' ' as u8 && c != '\t' as u8 && c != '\r' as u8
            },
            old(self).pos < old(self).bytes@.len() && final(self).pos == old(self).pos ==> {
                let c = old(self).bytes@[old(self).pos as int];
                c != ' ' as u8 && c != '\t' as u8 && c != '\r' as u8
            },
    {
        while !self.at_end()
            invariant
                self.wf(),
                self.pos >= old(self).pos,
                self.bytes == old(self).bytes,
                self.tokens == old(self).tokens,
                trivia(self.bytes@, old(self).pos as int, self.pos as int),
            decreases self.bytes@.len() - self.pos,
        {
            let c = self.bytes[self.pos as usize];
            if c == ' ' as u8 || c == '\t' as u8 || c == '\r' as u8 {
                proof {
                    lemma_trivia_piece(self.bytes@, old(self).pos as int, self.pos as int, self.pos + 1);
                }
                self.advance();
            } else {
                return;
            }
        }
    }

    /// Skips the rest of a line comment, up to the newline.
    fn skip_line_comment(&mut self)
        requires
            old(self).wf(),
            1 <= old(self).pos < old(self).bytes@.len(),
            old(self).bytes@[old(self).pos - 1] == '/' as u8,
            old(self).bytes@[old(self).pos as int] == '/' as u8,
        ensures
            final(self).wf(),
            final(self).pos > old(self).pos,
            final(self).bytes == old(self).bytes,
            final(self).tokens == old(self).tokens,
            trivia_piece(final(self).bytes@, old(self).pos - 1) == Some(final(self).pos as int),
    {
        self.advance();
        while !self.at_end()
            invariant
                self.wf(),
                self.pos > old(self).pos,
                self.bytes == old(self).bytes,
                self.tokens == old(self).tokens,
                line_end(self.bytes@, old(self).pos + 1) == line_end(self.bytes@, self.pos as int),
                1 <= old(self).pos < self.bytes@.len(),
                self.bytes@[old(self).pos - 1] == '/' as u8,
                self.bytes@[old(self).pos as int] == '/' as u8,
            decreases self.bytes@.len() - self.pos,
        {
            if self.bytes[self.pos as usize] == '\n' as u8 {
                proof {
                    assert(line_end(self.bytes@, self.pos as int) == self.pos);
                }
                return;
            }
            self.advance();
        }
        proof {
            assert(line_end(self.bytes@, self.pos as int) == self.pos);
        }
    }

    /// Skips a block comment, nested to any depth; the opening `/` is
    /// already consumed.
    fn skip_block_comment(&mut self, start: u32)
        requires
            old(self).wf(),
            last_end(old(self).tokens@) <= start,
            trivia(old(self).bytes@, last_end(old(self).tokens@), start as int),
            old(self).pos == start + 1,
            old(self).pos < old(self).bytes@.len(),
            old(self).bytes@[start as int] == '/' as u8,
            old(self).bytes@[old(self).pos as int] == '*' as u8,
        ensures
            final(self).wf(),
            final(self).pos > old(self).pos,
            final(self).bytes == old(self).bytes,
            last_end(final(self).tokens@) == final(self).pos || (final(self).tokens == old(self).tokens
                && trivia_piece(final(self).bytes@, start as int) == Some(final(self).pos as int)),
    {
        self.advance();
        let mut depth: u32 = 1;
        while !self.at_end() && depth > 0
            invariant
                self.wf(),
                self.pos > start + 1,
                depth <= self.pos,
                self.bytes == old(self).bytes,
                self.tokens == old(self).tokens,
                comment_end(self.bytes@, start + 2, 1) == comment_end(self.bytes@, self.pos as int, depth as nat),
            decreases self.bytes@.len() - self.pos,
        {
            if self.peek() == Some('/' as u8) && self.peek_next() == Some('*' as u8) {
                self.advance();
                self.advance();
                depth = depth + 1;
            } else if self.peek() == Some('*' as u8) && self.peek_next() == Some('/' as u8) {
                self.advance();
                self.advance();
                depth = depth - 1;
            } else {
                self.advance();
            }
        }
        if depth > 0 {
            self.error("unterminated block comment", start, ErrorKind::UnterminatedBlockComment);
        } else {
            proof {
                assert(comment_end(self.bytes@, self.pos as int, 0) == Some(self.pos as int));
                assert(trivia_piece(self.bytes@, start as int) == comment_end(self.bytes@, start + 2, 1));
            }
        }
    }

    /// Whether `bytes[s..e]` is a length unit (`Some(true)`), an angle
    /// unit (`Some(false)`) or neither.
    fn unit_kind(&self, s: u32, e: u32) -> (r: Option<bool>)
        requires
            s <= e <= self.bytes@.len(),
        ensures
            r == Some(true) <==> length_unit(self.bytes@.subrange(s as int, e as int)),
            r == Some(false) <==> angle_unit(self.bytes@.subrange(s as int, e as int)),
    {
        let b = self.bytes;
        let (s, e) = (s as usize, e as usize);
        let ghost u = b@.subrange(s as int, e as int);
        let n = e - s;
        assert(u.len() == n);
        if n == 1 {
            proof {
                assert(u =~= seq![b@[s as int]]);
            }
            if b[s] == 'm' as u8 {
                Some(true)
            } else {
                None
            }
        } else if n == 2 {
            proof {
                assert(u =~= seq![b@[s as int], b@[s + 1]]);
            }
            let (c0, c1) = (b[s], b[s + 1]);
            if (c0 == 'm' as u8 && c1 == 'm' as u8) || (c0 == 'c' as u8 && c1 == 'm' as u8) || (c0
                == 'i' as u8 && c1 == 'n' as u8) {
                Some(true)
            } else {
                None
            }
        } else if n == 3 {
            proof {
                assert(u =~= seq![b@[s as int], b@[s + 1], b@[s + 2]]);
            }
            let (c0, c1, c2) = (b[s], b[s + 1], b[s + 2]);
            if (c0 == 'd' as u8 && c1 == 'e' as u8 && c2 == 'g' as u8) || (c0 == 'r' as u8 && c1
                == 'a' as u8 && c2 == 'd' as u8) {
                Some(false)
            } else {
                None
            }
        } else {
            None
        }
    }

    /// Scans a number, with an optional fraction and unit suffix; the
    /// first digit is already consumed.
    fn scan_number(&mut self, start: u32)
        requires
            old(self).wf(),
            last_end(old(self).tokens@) <= start,
            trivia(old(self).bytes@, last_end(old(self).tokens@), start as int),
            old(self).pos == start + 1,
            is_digit(old(self).bytes@[start as int]),
        ensures
            final(self).wf(),
            last_end(final(self).tokens@) == final(self).pos,
            final(self).pos > start,
            final(self).bytes == old(self).bytes,
    {
        while self.peek().is_some() && is_ascii_digit(self.peek().unwrap())
            invariant
                self.wf(),
                self.pos > start,
                self.bytes == old(self).bytes,
                self.tokens == old(self).tokens,
                forall|j: int| start <= j < self.pos ==> is_digit(self.bytes@[j]),
            decreases self.bytes@.len() - self.pos,
        {
            self.advance();
        }
        let dot = self.pos;
        let is_float = self.peek() == Some('.' as u8) && self.peek_next().is_some()
            && is_ascii_digit(self.peek_next().unwrap());
        proof {
            assert(!byte_is(self.bytes@, dot as int, |c: u8| is_digit(c)));
            assert(!is_float ==> !(byte_is(self.bytes@, dot as int, |c: u8| c == '.' as u8) && byte_is(
                self.bytes@,
                dot + 1,
                |c: u8| is_digit(c),
            )));
        }
        if is_float {
            self.advance();
            while self.peek().is_some() && is_ascii_digit(self.peek().unwrap())
                invariant
                    self.wf(),
                    self.pos >= dot + 1,
                    self.pos == dot + 1 ==> self.pos < self.bytes@.len() && is_digit(self.bytes@[self.pos as int]),
                    self.bytes == old(self).bytes,
                    self.tokens == old(self).tokens,
                    self.bytes@[dot as int] == '.' as u8,
                    forall|j: int| start <= j < dot ==> is_digit(self.bytes@[j]),
                    forall|j: int| dot < j < self.pos ==> is_digit(self.bytes@[j]),
                decreases self.bytes@.len() - self.pos,
            {
                self.advance();
            }
        }
        let num_end = self.pos;
        let ghost b = self.bytes@;
        proof {
            assert(!byte_is(b, num_end as int, |c: u8| is_digit(c)));
        }
        proof {
            let t = b.subrange(start as int, num_end as int);
            if is_float {
                let k = dot - start;
                assert(t.take(k) =~= b.subrange(start as int, dot as int));
                assert(t.skip(k + 1) =~= b.subrange(dot + 1, num_end as int));
                assert(float_split(t, k));
            } else {
                assert(digits_text(t));
            }
            assert(number_text(t));
        }
        if self.peek().is_some() && is_ascii_alpha(self.peek().unwrap()) {
            self.advance();
            while self.peek().is_some() && is_ascii_alpha(self.peek().unwrap())
                invariant
                    self.wf(),
                    self.pos > num_end,
                    self.bytes == old(self).bytes,
                    self.tokens == old(self).tokens,
                    alpha_run_end(b, num_end as int) == alpha_run_end(b, self.pos as int),
                    b == self.bytes@,
                decreases self.bytes@.len() - self.pos,
            {
                proof {
                    assert(alpha_run_end(b, self.pos as int) == alpha_run_end(b, self.pos + 1));
                }
                self.advance();
            }
            proof {
                assert(alpha_run_end(b, self.pos as int) == self.pos);
                assert(!byte_is(b, self.pos as int, |c: u8| is_alpha(c)));
            }
            let unit = self.unit_kind(num_end, self.pos);
            proof {
                let t = self.text(start as int);
                let n = num_end - start;
                assert(t.take(n) =~= b.subrange(start as int, num_end as int));
                assert(t.skip(n) =~= b.subrange(num_end as int, self.pos as int));
                if unit == Some(true) {
                    assert(unit_split(t, n, true));
                }
                if unit == Some(false) {
                    assert(unit_split(t, n, false));
                }
            }
            match unit {
                Some(true) => self.emit(SyntaxKind::LengthLit, start),
                Some(false) => self.emit(SyntaxKind::AngleLit, start),
                None => {
                    self.pos = num_end;
                    self.emit_number(is_float, start);
                },
            }
        } else {
            proof {
                assert(alpha_run_end(b, num_end as int) == num_end);
                assert(b.subrange(num_end as int, num_end as int).len() == 0);
            }
            self.emit_number(is_float, start);
        }
    }

    /// Emits the number that ends here, as a float or an integer.
    fn emit_number(&mut self, is_float: bool, start: u32)
        requires
            old(self).wf(),
            last_end(old(self).tokens@) <= start < old(self).pos,
            trivia(old(self).bytes@, last_end(old(self).tokens@), start as int),
            is_float ==> float_text(old(self).text(start as int)),
            !is_float ==> digits_text(old(self).text(start as int)),
            token_maximal(
                old(self).bytes@,
                Token {
                    kind: if is_float { SyntaxKind::FloatLit } else { SyntaxKind::IntLit },
                    span: Span { start, end: old(self).pos },
                },
            ),
        ensures
            final(self).wf(),
            last_end(final(self).tokens@) == final(self).pos,
            final(self).pos == old(self).pos,
            final(self).bytes == old(self).bytes,
    {
        if is_float {
            self.emit(SyntaxKind::FloatLit, start);
        } else {
            self.emit(SyntaxKind::IntLit, start);
        }
    }

    /// Scans a string literal; the opening quote is already consumed.
    fn scan_string(&mut self, start: u32)
        requires
            old(self).wf(),
            last_end(old(self).tokens@) <= start,
            trivia(old(self).bytes@, last_end(old(self).tokens@), start as int),
            old(self).pos == start + 1,
            old(self).bytes@[start as int] == QUOTE,
        ensures
            final(self).wf(),
            last_end(final(self).tokens@) == final(self).pos,
            final(self).pos > start,
            final(self).bytes == old(self).bytes,
    {
        while !self.at_end()
            invariant
                self.wf(),
                self.pos > start,
                self.bytes == old(self).bytes,
                self.tokens == old(self).tokens,
                last_end(self.tokens@) <= start,
                trivia(self.bytes@, last_end(self.tokens@), start as int),
                self.bytes@[start as int] == QUOTE,
                string_end(self.bytes@, start + 1) == string_end(self.bytes@, self.pos as int),
            decreases self.bytes@.len() - self.pos,
        {
            let c = self.bytes[self.pos as usize];
            if c == QUOTE {
                self.advance();
                proof {
                    let t = self.text(start as int);
                    assert(t[0] == self.bytes@[start as int]);
                    assert(t[t.len() - 1] == self.bytes@[self.pos - 1]);
                }
                self.emit(SyntaxKind::StringLit, start);
                return;
            }
            if c == BACKSLASH {
                self.advance();
                if !self.at_end() {
                    self.advance();
                }
            } else {
                self.advance();
            }
        }
        proof {
            assert(string_end(self.bytes@, self.pos as int) is None);
        }
        self.error("unterminated string literal", start, ErrorKind::UnterminatedString);
    }

    /// Scans an identifier, and makes it a keyword where it spells one.
    fn scan_ident_or_keyword(&mut self, start: u32)
        requires
            old(self).wf(),
            last_end(old(self).tokens@) <= start,
            trivia(old(self).bytes@, last_end(old(self).tokens@), start as int),
            old(self).pos == start + 1,
            is_ident_start(old(self).bytes@[start as int]),
        ensures
            final(self).wf(),
            last_end(final(self).tokens@) == final(self).pos,
            final(self).pos > start,
            final(self).bytes == old(self).bytes,
    {
        while self.peek().is_some() && is_ascii_ident_continue(self.peek().unwrap())
            invariant
                self.wf(),
                self.pos > start,
                self.bytes == old(self).bytes,
                self.tokens == old(self).tokens,
                forall|j: int| start <= j < self.pos ==> is_ident_continue(self.bytes@[j]),
            decreases self.bytes@.len() - self.pos,
        {
            self.advance();
        }
        proof {
            assert(!byte_is(self.bytes@, self.pos as int, |c: u8| is_ident_continue(c)));
        }
        let kind = keyword_bytes(self.bytes, start as usize, self.pos as usize);
        match kind {
            Some(k) => {
                proof {
                    lemma_keyword_kind(self.text(start as int));
                }
                self.emit(k, start);
            },
            None => {
                self.emit(SyntaxKind::Ident, start);
            },
        }
    }
}

/// The kind of a token that is one byte alone, whatever follows it.
fn single_byte_kind(c: u8) -> (r: Option<SyntaxKind>)
    ensures
        r matches Some(k) ==> punct_text(k) == Some(seq![c]),
        r matches Some(k) ==> !(k is Minus || k is Eq || k is Bang || k is Lt || k is Gt || k is Pipe
            || k is Slash),
        r is None ==> !(c == LPAREN || c == RPAREN || c == LBRACE || c == RBRACE || c == LBRACKET
            || c == RBRACKET || c == '+' as u8 || c == '*' as u8 || c == '.' as u8 || c == ':' as u8
            || c == ',' as u8 || c == ';' as u8 || c == '\n' as u8),
{
    if c == LPAREN {
        return Some(SyntaxKind::LParen);
    }
    if c == RPAREN {
        return Some(SyntaxKind::RParen);
    }
    if c == LBRACE {
        return Some(SyntaxKind::LBrace);
    }
    if c == RBRACE {
        return Some(SyntaxKind::RBrace);
    }
    if c == LBRACKET {
        return Some(SyntaxKind::LBracket);
    }
    if c == RBRACKET {
        return Some(SyntaxKind::RBracket);
    }
    if c == '+' as u8 {
        return Some(SyntaxKind::Plus);
    }
    if c == '*' as u8 {
        return Some(SyntaxKind::Star);
    }
    if c == '.' as u8 {
        return Some(SyntaxKind::Dot);
    }
    if c == ':' as u8 {
        return Some(SyntaxKind::Colon);
    }
    if c == ',' as u8 {
        return Some(SyntaxKind::Comma);
    }
    if c == ';' as u8 {
        return Some(SyntaxKind::Semicolon);
    }
    if c == '\n' as u8 {
        return Some(SyntaxKind::Newline);
    }
    None
}

fn is_ascii_digit(c: u8) -> (r: bool)
    ensures
        r == is_digit(c),
{
    '0' as u8 <= c && c <= '9' as u8
}

fn is_ascii_alpha(c: u8) -> (r: bool)
    ensures
        r == is_alpha(c),
{
    ('a' as u8 <= c && c <= 'z' as u8) || ('A' as u8 <= c && c <= 'Z' as u8)
}

fn is_ascii_ident_continue(c: u8) -> (r: bool)
    ensures
        r == is_ident_continue(c),
{
    is_ascii_alpha(c) || is_ascii_digit(c) || c == '_' as u8
}

/// A keyword's text is a valid token of the keyword's kind.
proof fn lemma_keyword_kind(t: Seq<u8>)
    requires
        keyword_of(t) is Some,
    ensures
        token_text(keyword_of(t).unwrap(), t),
{
}

} // verus!
