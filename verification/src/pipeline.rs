//! The front end as a whole: lexing and parsing, then name resolution when those
//! found nothing wrong, then type checking when that found nothing wrong either.

use vstd::prelude::*;
use vstd::utf8::encode_utf8;

use crate::ast::{Node, Program, StmtView};
use crate::diagnostics::{Diagnostic, DiagnosticView, views};
use crate::interpreter::program_run;
use crate::soundness::well_typed_programs_do_not_get_stuck;
use crate::grammar::{kind_at, program};
use crate::lexer::{Lexer, described_by, lex};
use crate::parser::Parser;
use crate::resolver::{resolution_errors, resolve};
use crate::token::{Token, TokenKind};
use crate::type_checker::{type_check, type_errors};

verus! {

/// What the front end reports: the lexer's and the parser's diagnostics; if there
/// are none, the name resolution errors; if there are none either, the type errors.
pub open spec fn front_end_report(
    lexed: Seq<DiagnosticView>,
    parsed: Seq<DiagnosticView>,
    stmts: Seq<Node<StmtView>>,
) -> Seq<DiagnosticView> {
    let front = lexed + parsed;
    if front.len() > 0 {
        front
    } else if resolution_errors(stmts).len() > 0 {
        resolution_errors(stmts)
    } else {
        type_errors(stmts)
    }
}

/// Lexes and parses `source`, then resolves its names and type checks it as long
/// as nothing was reported; returns the program and what was reported. A program
/// with nothing reported can be run: it does not get stuck.
pub fn analyze(source: &str) -> (r: (Program, Vec<Diagnostic>))
    requires
        encode_utf8(source@).len() <= usize::MAX,
    ensures
        exists|toks: Seq<Token>|
            {
                &&& described_by(toks, lex(source@).0)
                &&& r.0.statements() == program(toks, 0).value
                &&& views(r.1@) == front_end_report(
                    lex(source@).1,
                    program(toks, 0).diags,
                    program(toks, 0).value,
                )
            },
        r.1@.len() == 0 ==> !(program_run(r.0.statements()).status is Stuck),
{
    let lexer = Lexer::new(source);
    let (tokens, mut diagnostics) = lexer.tokenize();
    let ghost toks = tokens@;
    assert(views(diagnostics@) =~= lex(source@).1);
    assert(kind_at(toks, toks.len() - 1) == TokenKind::Eof);
    let mut parser = Parser::new(tokens);
    let prog = parser.parse_program();
    let parse_diags = parser.finish();
    assert(views(parse_diags@) =~= program(toks, 0).diags);
    let ghost front = views(diagnostics@) + views(parse_diags@);
    let mut parse_diags = parse_diags;
    diagnostics.append(&mut parse_diags);
    assert(views(diagnostics@) =~= front);
    if diagnostics.len() == 0 {
        let mut resolved = resolve(&prog);
        diagnostics.append(&mut resolved);
        assert(views(diagnostics@) =~= resolution_errors(prog.statements()));
    }
    if diagnostics.len() == 0 {
        let mut checked = type_check(&prog);
        diagnostics.append(&mut checked);
        assert(views(diagnostics@) =~= type_errors(prog.statements()));
    }
    proof {
        if diagnostics@.len() == 0 {
            assert(type_errors(prog.statements()).len() == 0);
            well_typed_programs_do_not_get_stuck(prog.statements());
        }
    }
    assert(described_by(toks, lex(source@).0));
    assert(views(diagnostics@) == front_end_report(
        lex(source@).1,
        program(toks, 0).diags,
        program(toks, 0).value,
    ));
    (prog, diagnostics)
}

} // verus!
