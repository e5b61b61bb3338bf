use vstd::prelude::*;
use crate::span::Span;
use vstd::utf8::{is_char_boundary, valid_utf8, length_of_first_scalar, pop_first_scalar, encode_utf8_valid_utf8};
use vstd::string::StringSliceAdditionalSpecFns;

verus! {

/// Every kind of token the lexer produces.
#[derive(Debug, Clone, Copy, PartialEq, Eq, Structural)]
pub enum SyntaxKind {
    // === Literals ===
    /// Integer literal: `42`
    IntLit,
    /// Float literal: `3.14`
    FloatLit,
    /// Length with unit: `10mm`, `5cm`, `2.5in`, `1m`
    LengthLit,
    /// Angle with unit: `45deg`, `0.5rad`
    AngleLit,
    /// String literal: `"hello"`
    StringLit,
    /// `true`
    True,
    /// `false`
    False,

    // === Identifiers ===
    /// Variable or function name
    Ident,

    // === Keywords ===
    /// `let`
    Let,
    /// `data`
    Data,
    /// `fn`
    Fn,
    /// `enum`
    Enum,
    /// `if`
    If,
    /// `else`
    Else,
    /// `match`
    Match,
    /// `with`
    With,

    // === Operators ===
    /// `+`
    Plus,
    /// `-`
    Minus,
    /// `*`
    Star,
    /// `/`
    Slash,
    /// `=`
    Eq,
    /// `==`
    EqEq,
    /// `!=`
    BangEq,
    /// `<`
    Lt,
    /// `<=`
    LtEq,
    /// `>`
    Gt,
    /// `>=`
    GtEq,
    /// `&&`
    AmpAmp,
    /// `||`
    PipePipe,
    /// `!`
    Bang,
    /// `|>`
    PipeGt,
    /// `|` (lambda parameter delimiter)
    Pipe,
    /// `.`
    Dot,
    /// `->`
    Arrow,
    /// `:`
    Colon,
    /// `,`
    Comma,
    /// `=>`
    FatArrow,
    /// `;`
    Semicolon,

    // === Delimiters ===
    /// `(`
    LParen,
    /// `)`
    RParen,
    /// `{`
    LBrace,
    /// `}`
    RBrace,
    /// `[`
    LBracket,
    /// `]`
    RBracket,

    // === Special ===
    /// Newline (may be significant for statement separation)
    Newline,
    /// End of file
    Eof,
    /// Invalid token (lexer error recovery)
    Error,
}

/// The bytes of each keyword, and the kind it is lexed as.
pub open spec fn keyword_of(t: Seq<u8>) -> Option<SyntaxKind> {
    if t == seq![('l' as u8), ('e' as u8), ('t' as u8)] {
        Some(SyntaxKind::Let)
    } else if t == seq![('d' as u8), ('a' as u8), ('t' as u8), ('a' as u8)] {
        Some(SyntaxKind::Data)
    } else if t == seq![('f' as u8), ('n' as u8)] {
        Some(SyntaxKind::Fn)
    } else if t == seq![('e' as u8), ('n' as u8), ('u' as u8), ('m' as u8)] {
        Some(SyntaxKind::Enum)
    } else if t == seq![('i' as u8), ('f' as u8)] {
        Some(SyntaxKind::If)
    } else if t == seq![('e' as u8), ('l' as u8), ('s' as u8), ('e' as u8)] {
        Some(SyntaxKind::Else)
    } else if t == seq![('m' as u8), ('a' as u8), ('t' as u8), ('c' as u8), ('h' as u8)] {
        Some(SyntaxKind::Match)
    } else if t == seq![('w' as u8), ('i' as u8), ('t' as u8), ('h' as u8)] {
        Some(SyntaxKind::With)
    } else if t == seq![('t' as u8), ('r' as u8), ('u' as u8), ('e' as u8)] {
        Some(SyntaxKind::True)
    } else if t == seq![('f' as u8), ('a' as u8), ('l' as u8), ('s' as u8), ('e' as u8)] {
        Some(SyntaxKind::False)
    } else {
        None
    }
}

/// The human-readable name of each token kind.
pub open spec fn kind_name(k: SyntaxKind) -> Seq<char> {
    match k {
        SyntaxKind::IntLit => "integer literal"@,
        SyntaxKind::FloatLit => "float literal"@,
        SyntaxKind::LengthLit => "length literal"@,
        SyntaxKind::AngleLit => "angle literal"@,
        SyntaxKind::StringLit => "string literal"@,
        SyntaxKind::True => "'true'"@,
        SyntaxKind::False => "'false'"@,
        SyntaxKind::Ident => "identifier"@,
        SyntaxKind::Let => "'let'"@,
        SyntaxKind::Data => "'data'"@,
        SyntaxKind::Fn => "'fn'"@,
        SyntaxKind::Enum => "'enum'"@,
        SyntaxKind::If => "'if'"@,
        SyntaxKind::Else => "'else'"@,
        SyntaxKind::Match => "'match'"@,
        SyntaxKind::With => "'with'"@,
        SyntaxKind::Plus => "'+'"@,
        SyntaxKind::Minus => "'-'"@,
        SyntaxKind::Star => "'*'"@,
        SyntaxKind::Slash => "'/'"@,
        SyntaxKind::Eq => "'='"@,
        SyntaxKind::EqEq => "'=='"@,
        SyntaxKind::BangEq => "'!='"@,
        SyntaxKind::Lt => "'<'"@,
        SyntaxKind::LtEq => "'<='"@,
        SyntaxKind::Gt => "'>'"@,
        SyntaxKind::GtEq => "'>='"@,
        SyntaxKind::AmpAmp => "'&&'"@,
        SyntaxKind::PipePipe => "'||'"@,
        SyntaxKind::Bang => "'!'"@,
        SyntaxKind::PipeGt => "'|>'"@,
        SyntaxKind::Pipe => "'|'"@,
        SyntaxKind::Dot => "'.'"@,
        SyntaxKind::Arrow => "'->'"@,
        SyntaxKind::Colon => "':'"@,
        SyntaxKind::Comma => "','"@,
        SyntaxKind::FatArrow => "'=>'"@,
        SyntaxKind::Semicolon => "';'"@,
        SyntaxKind::LParen => "'('"@,
        SyntaxKind::RParen => "')'"@,
        SyntaxKind::LBrace => "'{'"@,
        SyntaxKind::RBrace => "'}'"@,
        SyntaxKind::LBracket => "'['"@,
        SyntaxKind::RBracket => "']'"@,
        SyntaxKind::Newline => "newline"@,
        SyntaxKind::Eof => "end of file"@,
        SyntaxKind::Error => "error"@,
    }
}

impl SyntaxKind {
    /// The keyword kind that `s` spells, or `None` for any other text.
    pub fn keyword(s: &str) -> (r: Option<SyntaxKind>)
        ensures
            r == keyword_of(s.spec_bytes()),
    {
        let b = s.as_bytes();
        proof {
            assert(b@.subrange(0, b@.len() as int) =~= b@);
        }
        keyword_bytes(b, 0, b.len())
    }

    /// Human-readable name of this token kind.
    pub fn name(self) -> (r: &'static str)
        ensures
            r@ == kind_name(self),
    {
        match self {
            SyntaxKind::IntLit => "integer literal",
            SyntaxKind::FloatLit => "float literal",
            SyntaxKind::LengthLit => "length literal",
            SyntaxKind::AngleLit => "angle literal",
            SyntaxKind::StringLit => "string literal",
            SyntaxKind::True => "'true'",
            SyntaxKind::False => "'false'",
            SyntaxKind::Ident => "identifier",
            SyntaxKind::Let => "'let'",
            SyntaxKind::Data => "'data'",
            SyntaxKind::Fn => "'fn'",
            SyntaxKind::Enum => "'enum'",
            SyntaxKind::If => "'if'",
            SyntaxKind::Else => "'else'",
            SyntaxKind::Match => "'match'",
            SyntaxKind::With => "'with'",
            SyntaxKind::Plus => "'+'",
            SyntaxKind::Minus => "'-'",
            SyntaxKind::Star => "'*'",
            SyntaxKind::Slash => "'/'",
            SyntaxKind::Eq => "'='",
            SyntaxKind::EqEq => "'=='",
            SyntaxKind::BangEq => "'!='",
            SyntaxKind::Lt => "'<'",
            SyntaxKind::LtEq => "'<='",
            SyntaxKind::Gt => "'>'",
            SyntaxKind::GtEq => "'>='",
            SyntaxKind::AmpAmp => "'&&'",
            SyntaxKind::PipePipe => "'||'",
            SyntaxKind::Bang => "'!'",
            SyntaxKind::PipeGt => "'|>'",
            SyntaxKind::Pipe => "'|'",
            SyntaxKind::Dot => "'.'",
            SyntaxKind::Arrow => "'->'",
            SyntaxKind::Colon => "':'",
            SyntaxKind::Comma => "','",
            SyntaxKind::FatArrow => "'=>'",
            SyntaxKind::Semicolon => "';'",
            SyntaxKind::LParen => "'('",
            SyntaxKind::RParen => "')'",
            SyntaxKind::LBrace => "'{'",
            SyntaxKind::RBrace => "'}'",
            SyntaxKind::LBracket => "'['",
            SyntaxKind::RBracket => "']'",
            SyntaxKind::Newline => "newline",
            SyntaxKind::Eof => "end of file",
            SyntaxKind::Error => "error",
        }
    }
}

/// The keyword kind that `b[start..end]` spells, if any.
pub fn keyword_bytes(b: &[u8], start: usize, end: usize) -> (r: Option<SyntaxKind>)
    requires
        start <= end <= b@.len(),
    ensures
        r == keyword_of(b@.subrange(start as int, end as int)),
{
    let ghost t = b@.subrange(start as int, end as int);
    let n = end - start;
    let r = if n == 2 {
        if b[start] == ('f' as u8) && b[start + 1] == ('n' as u8) {
            Some(SyntaxKind::Fn)
        } else if b[start] == ('i' as u8) && b[start + 1] == ('f' as u8) {
            Some(SyntaxKind::If)
        } else {
            None
        }
    } else if n == 3 {
        if b[start] == ('l' as u8) && b[start + 1] == ('e' as u8) && b[start + 2] == ('t' as u8) {
            Some(SyntaxKind::Let)
        } else {
            None
        }
    } else if n == 4 {
        let (c0, c1, c2, c3) = (b[start], b[start + 1], b[start + 2], b[start + 3]);
        if c0 == ('d' as u8) && c1 == ('a' as u8) && c2 == ('t' as u8) && c3 == ('a' as u8) {
            Some(SyntaxKind::Data)
        } else if c0 == ('e' as u8) && c1 == ('n' as u8) && c2 == ('u' as u8) && c3 == ('m' as u8) {
            Some(SyntaxKind::Enum)
        } else if c0 == ('e' as u8) && c1 == ('l' as u8) && c2 == ('s' as u8) && c3 == ('e' as u8) {
            Some(SyntaxKind::Else)
        } else if c0 == ('w' as u8) && c1 == ('i' as u8) && c2 == ('t' as u8) && c3 == ('h' as u8) {
            Some(SyntaxKind::With)
        } else if c0 == ('t' as u8) && c1 == ('r' as u8) && c2 == ('u' as u8) && c3 == ('e' as u8) {
            Some(SyntaxKind::True)
        } else {
            None
        }
    } else if n == 5 {
        let (c0, c1, c2, c3, c4) = (b[start], b[start + 1], b[start + 2], b[start + 3], b[start + 4]);
        if c0 == ('m' as u8) && c1 == ('a' as u8) && c2 == ('t' as u8) && c3 == ('c' as u8) && c4 == ('h' as u8) {
            Some(SyntaxKind::Match)
        } else if c0 == ('f' as u8) && c1 == ('a' as u8) && c2 == ('l' as u8) && c3 == ('s' as u8) && c4 == ('e' as u8) {
            Some(SyntaxKind::False)
        } else {
            None
        }
    } else {
        None
    };
    proof {
        if n == 2 {
            assert(t =~= seq![b@[start as int], b@[start + 1]]);
        } else if n == 3 {
            assert(t =~= seq![b@[start as int], b@[start + 1], b@[start + 2]]);
        } else if n == 4 {
            assert(t =~= seq![b@[start as int], b@[start + 1], b@[start + 2], b@[start + 3]]);
        } else if n == 5 {
            assert(t =~= seq![b@[start as int], b@[start + 1], b@[start + 2], b@[start + 3], b@[start + 4]]);
        }
    }
    r
}

/// A token: its kind and the span of source text it covers.
///
/// The text itself is recovered from the source through the span.
#[derive(Debug, Clone, Copy, PartialEq)]
pub struct Token {
    pub kind: SyntaxKind,
    pub span: Span,
}

impl Token {
    pub fn new(kind: SyntaxKind, span: Span) -> (r: Token)
        ensures
            r.kind == kind,
            r.span == span,
    {
        Token { kind, span }
    }

    /// The text this token covers in `source`.
    pub fn text<'a>(&self, source: &'a str) -> (r: &'a str)
        requires
            self.span.start <= self.span.end <= source.spec_bytes().len(),
            is_char_boundary(source.spec_bytes(), self.span.start as int),
            is_char_boundary(source.spec_bytes(), self.span.end as int),
        ensures
            r.spec_bytes() == source.spec_bytes().subrange(
                self.span.start as int,
                self.span.end as int,
            ),
    {
        let ghost bytes = source.spec_bytes();
        proof {
            encode_utf8_valid_utf8(source@);
            lemma_boundary_in_suffix(bytes, self.span.start as int, self.span.end as int);
        }
        let (_, tail) = source.split_at(self.span.start as usize);
        let (r, _) = tail.split_at((self.span.end - self.span.start) as usize);
        proof {
            assert(r.spec_bytes() =~= bytes.subrange(self.span.start as int, self.span.end as int));
        }
        r
    }
}

/// A character boundary of `bytes` at or after the boundary `i` is a
/// boundary of the suffix that starts at `i`.
proof fn lemma_boundary_in_suffix(bytes: Seq<u8>, i: int, j: int)
    requires
        valid_utf8(bytes),
        is_char_boundary(bytes, i),
        is_char_boundary(bytes, j),
        0 <= i <= j,
    ensures
        is_char_boundary(bytes.subrange(i, bytes.len() as int), j - i),
    decreases bytes.len(),
{
    if i == 0 {
        assert(bytes.subrange(0, bytes.len() as int) =~= bytes);
    } else {
        let l = length_of_first_scalar(bytes);
        let p = pop_first_scalar(bytes);
        reveal_with_fuel(is_char_boundary, 2);
        assert(0 < l <= bytes.len());
        assert(i - l >= 0);
        assert(valid_utf8(p));
        assert(p.subrange(i - l, p.len() as int) =~= bytes.subrange(i, bytes.len() as int));
        lemma_boundary_in_suffix(p, i - l, j - l);
    }
}

} // verus!
