use vstd::prelude::*;
use vstd::string::StringSliceAdditionalSpecFns;
use crate::ast::SourceFile;
use crate::error::SyntaxError;
use crate::eval_error::{EvalError, eval_kind_name};
use crate::ir::{Dag, IrError};
use crate::lexer::{lex, lexed};
use crate::token::Token;
use crate::lower::{lower, lowered};
use crate::parser::{parser_error_kind, stmt_shaped};
use crate::text::{decimal, owned, push_decimal, push_str};

verus! {

/// What `parse` returns for the bytes `b`: the errors are those `lex`
/// reports for `b`, then the parser's; every statement is shaped.
pub open spec fn parsed(b: Seq<u8>, file: SourceFile, errs: Seq<SyntaxError>) -> bool {
    &&& exists|k: int, toks: Seq<Token>|
        {
            &&& 0 <= k <= errs.len()
            &&& #[trigger] lexed(b, toks, errs.take(k))
            &&& forall|j: int| k <= j < errs.len() ==> parser_error_kind(#[trigger] errs[j].kind)
        }
    &&& forall|i: int| 0 <= i < file.stmts@.len() ==> stmt_shaped(#[trigger] file.stmts@[i].node)
}

/// Lexes and parses `source`; the errors are the lexer's, then the
/// parser's.
pub fn parse(source: &str) -> (r: (SourceFile, Vec<SyntaxError>))
    requires
        source.spec_bytes().len() < u32::MAX,
    ensures
        parsed(source.spec_bytes(), r.0, r.1@),
{
    let (tokens, mut errors) = lex(source);
    let ghost toks = tokens@;
    let (file, parse_errors) = crate::parser::parse(source, tokens);
    let ghost lex_errors = errors@;
    let mut i: usize = 0;
    while i < parse_errors.len()
        invariant
            i <= parse_errors@.len(),
            errors@ == lex_errors + parse_errors@.take(i as int),
            forall|k: int| 0 <= k < parse_errors@.len() ==> parser_error_kind(#[trigger] parse_errors@[k].kind),
        decreases parse_errors@.len() - i,
    {
        errors.push(parse_errors[i].copy());
        proof {
            assert(parse_errors@.take(i + 1) =~= parse_errors@.take(i as int).push(parse_errors@[i as int]));
        }
        i = i + 1;
    }
    proof {
        assert(parse_errors@.take(parse_errors@.len() as int) =~= parse_errors@);
        assert(errors@.take(lex_errors.len() as int) =~= lex_errors);
        assert forall|j: int| lex_errors.len() <= j < errors@.len() implies parser_error_kind(
            #[trigger] errors@[j].kind,
        ) by {
            assert(errors@[j] == parse_errors@[j - lex_errors.len()]);
        }
    }
    let result = (file, errors);
    proof {
        let k = lex_errors.len() as int;
        assert(lexed(source.spec_bytes(), toks, result.1@.take(k)));
        assert(forall|j: int| k <= j < result.1@.len() ==> parser_error_kind(#[trigger] result.1@[j].kind));
    }
    result
}

/// The 1-based line and column just after the bytes `b`: a newline starts
/// a new line, and every other character moves one column (the bytes that
/// continue a multi-byte character do not count).
pub open spec fn line_col(b: Seq<u8>) -> (nat, nat)
    decreases b.len(),
{
    if b.len() == 0 {
        (1, 1)
    } else {
        let (line, col) = line_col(b.drop_last());
        if b.last() == '\n' as u8 {
            (line + 1, 1)
        } else if b.last() >= 128 && b.last() < 192 {
            (line, col)
        } else {
            (line, col + 1)
        }
    }
}

/// The 1-based line and column of a byte offset in `source`.
pub fn offset_to_line_col(source: &str, offset: u32) -> (r: (u64, u64))
    ensures
        ({
            let b = source.spec_bytes();
            let n = if offset <= b.len() { offset as int } else { b.len() as int };
            r.0 == line_col(b.take(n)).0 && r.1 == line_col(b.take(n)).1
        }),
{
    let b = source.as_bytes();
    let n: usize = if (offset as usize) <= b.len() { offset as usize } else { b.len() };
    let mut line: u64 = 1;
    let mut col: u64 = 1;
    let mut i: usize = 0;
    while i < n
        invariant
            n <= b@.len(),
            i <= n,
            line == line_col(b@.take(i as int)).0,
            col == line_col(b@.take(i as int)).1,
            n <= u32::MAX,
            line <= i + 1,
            col <= i + 1,
        decreases n - i,
    {
        let c = b[i];
        proof {
            assert(b@.take(i + 1).drop_last() =~= b@.take(i as int));
        }
        if c == '\n' as u8 {
            line = line + 1;
            col = 1;
        } else if c >= 128 && c < 192 {
        } else {
            col = col + 1;
        }
        i = i + 1;
    }
    (line, col)
}

/// The diagnostic line of a syntax error: `error[Syntax]: message (at
/// path:line:col)`.
pub open spec fn syntax_line(err: SyntaxError, b: Seq<u8>, path: Seq<char>) -> Seq<char> {
    let n = if err.span.start <= b.len() { err.span.start as int } else { b.len() as int };
    let (line, col) = line_col(b.take(n));
    "error[Syntax]: "@ + err.message@ + " (at "@ + path + ":"@ + decimal(line) + ":"@ + decimal(col)
        + ")"@
}

/// The diagnostic lines of the errors, each followed by a newline.
pub open spec fn syntax_report(errs: Seq<SyntaxError>, b: Seq<u8>, path: Seq<char>) -> Seq<char>
    decreases errs.len(),
{
    if errs.len() == 0 {
        seq![]
    } else {
        syntax_report(errs.drop_last(), b, path) + syntax_line(errs.last(), b, path) + "\n"@
    }
}

/// `error[Syntax]: message (at path:line:col)`.
pub fn format_syntax_error(err: &SyntaxError, source: &str, path: &str) -> (r: String)
    ensures
        r@ == syntax_line(*err, source.spec_bytes(), path@),
{
    let (line, col) = offset_to_line_col(source, err.span.start);
    let mut r = owned("error[Syntax]: ");
    push_str(&mut r, err.message.as_str());
    push_str(&mut r, " (at ");
    push_str(&mut r, path);
    push_str(&mut r, ":");
    push_decimal(&mut r, line);
    push_str(&mut r, ":");
    push_decimal(&mut r, col);
    push_str(&mut r, ")");
    r
}

/// `error[Kind]: message (at path:line:col)`, or `error[Kind]: message`
/// when the error has no span.
pub fn format_eval_error(err: &EvalError, source: &str, path: &str) -> (r: String)
    ensures
        match err.span {
            Some(s) => {
                let b = source.spec_bytes();
                let n = if s.start <= b.len() { s.start as int } else { b.len() as int };
                let (line, col) = line_col(b.take(n));
                r@ == "error["@ + eval_kind_name(err.kind) + "]: "@ + err.message@ + " (at "@ + path@
                    + ":"@ + decimal(line) + ":"@ + decimal(col) + ")"@
            },
            None => r@ == "error["@ + eval_kind_name(err.kind) + "]: "@ + err.message@,
        },
{
    let mut r = owned("error[");
    push_str(&mut r, err.kind.name());
    push_str(&mut r, "]: ");
    push_str(&mut r, err.message.as_str());
    match err.span {
        Some(s) => {
            let (line, col) = offset_to_line_col(source, s.start);
            push_str(&mut r, " (at ");
            push_str(&mut r, path);
            push_str(&mut r, ":");
            push_decimal(&mut r, line);
            push_str(&mut r, ":");
            push_decimal(&mut r, col);
            push_str(&mut r, ")");
        },
        None => {},
    }
    r
}

/// Parses and lowers `source`. With syntax errors, their diagnostic
/// lines; else, with lowering errors (an arena too large for node ids),
/// theirs; else the arena, whose roots are the lowered statements.
pub fn parse_and_lower(source: &str, path: &str) -> (r: Result<Dag, String>)
    requires
        source.spec_bytes().len() < u32::MAX,
    ensures
        exists|file: SourceFile, errs: Seq<SyntaxError>|
            {
                &&& #[trigger] parsed(source.spec_bytes(), file, errs)
                &&& match r {
                    Ok(dag) => errs.len() == 0 && lowered(file, dag, seq![]),
                    Err(m) => if errs.len() > 0 {
                        m@ == syntax_report(errs, source.spec_bytes(), path@)
                    } else {
                        exists|d: Dag, ie: Seq<IrError>| #[trigger] lowered(file, d, ie) && ie.len() > 0
                    },
                }
            },
{
    let (ast, parse_errors) = parse(source);
    if parse_errors.len() > 0 {
        let mut msg = String::new();
        let mut i: usize = 0;
        proof {
            assert(parse_errors@.take(0) =~= Seq::<SyntaxError>::empty());
        }
        while i < parse_errors.len()
            invariant
                i <= parse_errors@.len(),
                msg@ == syntax_report(parse_errors@.take(i as int), source.spec_bytes(), path@),
            decreases parse_errors@.len() - i,
        {
            let line = format_syntax_error(&parse_errors[i], source, path);
            push_str(&mut msg, line.as_str());
            push_str(&mut msg, "\n");
            proof {
                assert(parse_errors@.take(i + 1).drop_last() =~= parse_errors@.take(i as int));
            }
            i = i + 1;
        }
        proof {
            assert(parse_errors@.take(i as int) =~= parse_errors@);
            assert(parsed(source.spec_bytes(), ast, parse_errors@));
        }
        return Err(msg);
    }
    let (dag, ir_errors) = lower(&ast);
    if ir_errors.len() > 0 {
        let mut msg = String::new();
        let mut i: usize = 0;
        while i < ir_errors.len()
            invariant
                i <= ir_errors@.len(),
            decreases ir_errors@.len() - i,
        {
            push_str(&mut msg, "error[IR]: ");
            let text = ir_errors[i].to_text();
            push_str(&mut msg, text.as_str());
            push_str(&mut msg, " (at ");
            push_str(&mut msg, path);
            push_str(&mut msg, ":?)\n");
            i = i + 1;
        }
        proof {
            assert(parsed(source.spec_bytes(), ast, parse_errors@));
            assert(lowered(ast, dag, ir_errors@));
        }
        return Err(msg);
    }
    proof {
        assert(parsed(source.spec_bytes(), ast, parse_errors@));
        assert(ir_errors@ =~= Seq::<IrError>::empty());
    }
    Ok(dag)
}

} // verus!
