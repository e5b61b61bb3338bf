use covariant::error::{ErrorKind, SyntaxError};
use covariant::parser::unescape;
use covariant::pipeline::{format_syntax_error, offset_to_line_col, parse_and_lower};
use covariant::lexer::lex;
use covariant::span::{Span, Spanned};
use covariant::token::{SyntaxKind, Token};

fn lex_kinds(source: &str) -> Vec<SyntaxKind> {
    let (tokens, errors) = lex(source);
    assert!(errors.is_empty(), "unexpected errors: {errors:?}");
    tokens
        .iter()
        .filter(|t| t.kind != SyntaxKind::Eof && t.kind != SyntaxKind::Newline)
        .map(|t| t.kind)
        .collect()
}

fn lex_kinds_with_newlines(source: &str) -> Vec<SyntaxKind> {
    let (tokens, errors) = lex(source);
    assert!(errors.is_empty(), "unexpected errors: {errors:?}");
    tokens.iter().filter(|t| t.kind != SyntaxKind::Eof).map(|t| t.kind).collect()
}

#[test]
fn span_merge() {
    let a = Span::new(5, 10);
    let b = Span::new(8, 20);
    let merged = a.merge(b);
    assert_eq!(merged, Span::new(5, 20));
}

#[test]
fn span_point() {
    let s = Span::point(42);
    assert_eq!(s.start, 42);
    assert_eq!(s.end, 42);
}

#[test]
fn spanned_map() {
    let s = Spanned::new(10, Span::new(0, 2));
    let s2 = s.map(|n| n * 2);
    assert_eq!(s2.node, 20);
    assert_eq!(s2.span, Span::new(0, 2));
}

#[test]
fn keyword_lookup() {
    assert_eq!(SyntaxKind::keyword("let"), Some(SyntaxKind::Let));
    assert_eq!(SyntaxKind::keyword("fn"), Some(SyntaxKind::Fn));
    assert_eq!(SyntaxKind::keyword("true"), Some(SyntaxKind::True));
    assert_eq!(SyntaxKind::keyword("false"), Some(SyntaxKind::False));
    assert_eq!(SyntaxKind::keyword("foo"), None);
    assert_eq!(SyntaxKind::keyword("ISO_METRIC"), None);
}

#[test]
fn token_text_extraction() {
    let source = "let x = 42";
    let token = Token::new(SyntaxKind::Let, Span::new(0, 3));
    assert_eq!(token.text(source), "let");
}

#[test]
fn token_text_of_multibyte_source() {
    let source = "\u{e9}t\u{e9} = 1";
    let token = Token::new(SyntaxKind::Ident, Span::new(0, 5));
    assert_eq!(token.text(source), "\u{e9}t\u{e9}");
}

#[test]
fn kind_names() {
    assert_eq!(SyntaxKind::IntLit.name(), "integer literal");
    assert_eq!(SyntaxKind::PipeGt.name(), "'|>'");
    assert_eq!(SyntaxKind::Eof.name(), "end of file");
}

#[test]
fn single_char_operators() {
    assert_eq!(
        lex_kinds("+ - * /"),
        vec![SyntaxKind::Plus, SyntaxKind::Minus, SyntaxKind::Star, SyntaxKind::Slash]
    );
}

#[test]
fn two_char_operators() {
    assert_eq!(
        lex_kinds("== != <= >= && || |>"),
        vec![
            SyntaxKind::EqEq,
            SyntaxKind::BangEq,
            SyntaxKind::LtEq,
            SyntaxKind::GtEq,
            SyntaxKind::AmpAmp,
            SyntaxKind::PipePipe,
            SyntaxKind::PipeGt,
        ]
    );
}

#[test]
fn arrow_and_fat_arrow() {
    assert_eq!(lex_kinds("-> =>"), vec![SyntaxKind::Arrow, SyntaxKind::FatArrow]);
}

#[test]
fn delimiters() {
    assert_eq!(
        lex_kinds("(){}[]"),
        vec![
            SyntaxKind::LParen,
            SyntaxKind::RParen,
            SyntaxKind::LBrace,
            SyntaxKind::RBrace,
            SyntaxKind::LBracket,
            SyntaxKind::RBracket,
        ]
    );
}

#[test]
fn lexer_integer_literal() {
    assert_eq!(lex_kinds("42"), vec![SyntaxKind::IntLit]);
}

#[test]
fn lexer_float_literal() {
    assert_eq!(lex_kinds("3.14"), vec![SyntaxKind::FloatLit]);
}

#[test]
fn length_literals() {
    assert_eq!(
        lex_kinds("10mm 5cm 2.5in 1m"),
        vec![SyntaxKind::LengthLit, SyntaxKind::LengthLit, SyntaxKind::LengthLit, SyntaxKind::LengthLit]
    );
}

#[test]
fn angle_literals() {
    assert_eq!(lex_kinds("45deg 0.5rad"), vec![SyntaxKind::AngleLit, SyntaxKind::AngleLit]);
}

#[test]
fn lexer_string_literal() {
    assert_eq!(lex_kinds("\"hello\""), vec![SyntaxKind::StringLit]);
}

#[test]
fn string_with_escape() {
    assert_eq!(lex_kinds("\"he\\\"llo\""), vec![SyntaxKind::StringLit]);
}

#[test]
fn keywords() {
    assert_eq!(
        lex_kinds("let data fn enum if else match with"),
        vec![
            SyntaxKind::Let,
            SyntaxKind::Data,
            SyntaxKind::Fn,
            SyntaxKind::Enum,
            SyntaxKind::If,
            SyntaxKind::Else,
            SyntaxKind::Match,
            SyntaxKind::With,
        ]
    );
}

#[test]
fn booleans() {
    assert_eq!(lex_kinds("true false"), vec![SyntaxKind::True, SyntaxKind::False]);
}

#[test]
fn identifiers() {
    assert_eq!(
        lex_kinds("foo bar ISO_METRIC M3"),
        vec![SyntaxKind::Ident, SyntaxKind::Ident, SyntaxKind::Ident, SyntaxKind::Ident]
    );
}

#[test]
fn line_comment() {
    assert_eq!(
        lex_kinds_with_newlines("42 // comment\n10"),
        vec![SyntaxKind::IntLit, SyntaxKind::Newline, SyntaxKind::IntLit]
    );
}

#[test]
fn block_comment() {
    assert_eq!(lex_kinds("42 /* comment */ 10"), vec![SyntaxKind::IntLit, SyntaxKind::IntLit]);
}

#[test]
fn nested_block_comment() {
    assert_eq!(lex_kinds("/* outer /* inner */ still */"), vec![]);
}

#[test]
fn lexer_let_statement() {
    assert_eq!(
        lex_kinds("let x = 10mm"),
        vec![SyntaxKind::Let, SyntaxKind::Ident, SyntaxKind::Eq, SyntaxKind::LengthLit]
    );
}

#[test]
fn lexer_function_call() {
    assert_eq!(
        lex_kinds("box(vec3(80mm, 50mm, 5mm))"),
        vec![
            SyntaxKind::Ident,
            SyntaxKind::LParen,
            SyntaxKind::Ident,
            SyntaxKind::LParen,
            SyntaxKind::LengthLit,
            SyntaxKind::Comma,
            SyntaxKind::LengthLit,
            SyntaxKind::Comma,
            SyntaxKind::LengthLit,
            SyntaxKind::RParen,
            SyntaxKind::RParen,
        ]
    );
}

#[test]
fn pipe_chain() {
    assert_eq!(
        lex_kinds("x |> f |> g"),
        vec![SyntaxKind::Ident, SyntaxKind::PipeGt, SyntaxKind::Ident, SyntaxKind::PipeGt, SyntaxKind::Ident]
    );
}

#[test]
fn lambda_delimiter() {
    assert_eq!(
        lex_kinds("|x| x + 1"),
        vec![
            SyntaxKind::Pipe,
            SyntaxKind::Ident,
            SyntaxKind::Pipe,
            SyntaxKind::Ident,
            SyntaxKind::Plus,
            SyntaxKind::IntLit,
        ]
    );
}

#[test]
fn error_unterminated_string() {
    let (_, errors) = lex("\"unterminated");
    assert_eq!(errors.len(), 1);
    assert_eq!(errors[0].kind, ErrorKind::UnterminatedString);
}

#[test]
fn error_unexpected_char() {
    let (_, errors) = lex("@");
    assert_eq!(errors.len(), 1);
    assert_eq!(errors[0].kind, ErrorKind::UnexpectedChar);
}

#[test]
fn error_unterminated_block_comment() {
    let (_, errors) = lex("/* no end");
    assert_eq!(errors.len(), 1);
    assert_eq!(errors[0].kind, ErrorKind::UnterminatedBlockComment);
}

#[test]
fn number_followed_by_unknown_suffix() {
    assert_eq!(lex_kinds("10min"), vec![SyntaxKind::IntLit, SyntaxKind::Ident]);
}

#[test]
fn semicolons() {
    assert_eq!(lex_kinds("a; b"), vec![SyntaxKind::Ident, SyntaxKind::Semicolon, SyntaxKind::Ident]);
}

#[test]
fn eof_token_always_present() {
    let (tokens, _) = lex("");
    assert_eq!(tokens.len(), 1);
    assert_eq!(tokens[0].kind, SyntaxKind::Eof);
}

#[test]
fn error_token_matches_error_span() {
    let (tokens, errors) = lex("a & b");
    assert_eq!(errors.len(), 1);
    assert_eq!(errors[0].message, "expected '&&'");
    assert_eq!(errors[0].span, Span::new(2, 3));
    assert_eq!(tokens[1], Token::new(SyntaxKind::Error, Span::new(2, 3)));
    assert_eq!(tokens.last().unwrap(), &Token::new(SyntaxKind::Eof, Span::new(5, 5)));
}

#[test]
fn unexpected_char_message_names_it() {
    let (_, errors) = lex("1 # 2");
    assert_eq!(errors[0].message, "unexpected character '#'");
    assert_eq!(errors[0].to_text(), "unexpected character '#'");
}

#[test]
fn token_spans_cover_literal_text() {
    let source = "let w = 2.5in";
    let (tokens, errors) = lex(source);
    assert!(errors.is_empty());
    assert_eq!(tokens[3].kind, SyntaxKind::LengthLit);
    assert_eq!(tokens[3].text(source), "2.5in");
    assert_eq!(tokens[4], Token::new(SyntaxKind::Eof, Span::new(13, 13)));
}

#[test]
fn dot_without_fraction_digits_is_separate() {
    assert_eq!(lex_kinds("3.x"), vec![SyntaxKind::IntLit, SyntaxKind::Dot, SyntaxKind::Ident]);
}

#[test]
fn diagnostics_use_one_based_line_and_column() {
    let source = "let a = 1\nlet b = @";
    assert_eq!(offset_to_line_col(source, 0), (1, 1));
    assert_eq!(offset_to_line_col(source, 18), (2, 9));
    let err = SyntaxError::new("unexpected character '@'", Span::new(18, 19), ErrorKind::UnexpectedChar);
    assert_eq!(format_syntax_error(&err, source, "part.cov"), "error[Syntax]: unexpected character '@' (at part.cov:2:9)");
}

#[test]
fn column_counts_characters_not_bytes() {
    assert_eq!(offset_to_line_col("\"\u{e9}\" x", 5), (1, 5));
}

#[test]
fn unescape_replaces_known_escapes() {
    assert_eq!(unescape("a\\nb\\t\\\\\\\"c"), "a\nb\t\\\"c");
    assert_eq!(unescape("x\\qy"), "x\\qy");
    assert_eq!(unescape("end\\"), "end\\");
}

#[test]
fn parse_and_lower_reports_syntax_errors() {
    assert!(parse_and_lower("let x = 1 + 2\nx", "a.cov").is_ok());
    let err = parse_and_lower("let = 1", "a.cov").unwrap_err();
    assert!(err.starts_with("error[Syntax]: "), "{err}");
    assert_eq!(err, "error[Syntax]: expected '=', found integer literal (at a.cov:1:7)\n");
}

#[test]
fn tokens_are_as_long_as_they_can_be() {
    assert_eq!(lex_kinds("letx"), vec![SyntaxKind::Ident]);
    assert_eq!(lex_kinds("10mmx"), vec![SyntaxKind::IntLit, SyntaxKind::Ident]);
    assert_eq!(lex_kinds("3.5deg"), vec![SyntaxKind::AngleLit]);
    assert_eq!(lex_kinds("12.75"), vec![SyntaxKind::FloatLit]);
}

#[test]
fn error_tokens_have_their_shapes() {
    let (tokens, errors) = lex("a \"open");
    assert_eq!(errors.len(), 1);
    assert_eq!(errors[0].kind, ErrorKind::UnterminatedString);
    assert_eq!(tokens[1], Token::new(SyntaxKind::Error, Span::new(2, 7)));
    let (tokens, errors) = lex("1 /* a /* b */");
    assert_eq!(errors[0].kind, ErrorKind::UnterminatedBlockComment);
    assert_eq!(tokens[1], Token::new(SyntaxKind::Error, Span::new(2, 14)));
    let (tokens, _) = lex("\"a\\\"b\" c");
    assert_eq!(tokens[0], Token::new(SyntaxKind::StringLit, Span::new(0, 6)));
}

#[test]
fn unit_suffix_rescan_spans() {
    let (tokens, errors) = lex("10min");
    assert!(errors.is_empty());
    assert_eq!(
        tokens,
        vec![
            Token::new(SyntaxKind::IntLit, Span::new(0, 2)),
            Token::new(SyntaxKind::Ident, Span::new(2, 5)),
            Token::new(SyntaxKind::Eof, Span::point(5)),
        ]
    );
}
