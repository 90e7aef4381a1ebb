use hiori::ast::{Expr, Stmt};
use hiori::diagnostics::{render, Diagnostic, Severity, Span};
use hiori::interpreter::{interpret, Value};
use hiori::lexer::Lexer;
use hiori::parser::Parser;
use hiori::pipeline::analyze;
use hiori::resolver::resolve;
use hiori::token::{Token, TokenKind};
use hiori::type_checker::type_check;

fn lex(source: &str) -> (Vec<Token>, Vec<Diagnostic>) {
    Lexer::new(source).tokenize()
}

fn messages(diags: &[Diagnostic]) -> Vec<String> {
    diags.iter().map(|d| d.message.clone()).collect()
}

fn program_diags(source: &str) -> Vec<Diagnostic> {
    let (tokens, mut diags) = lex(source);
    let mut parser = Parser::new(tokens);
    parser.parse_program();
    diags.extend(parser.finish());
    diags
}

fn whole_expr_diags(source: &str) -> Vec<Diagnostic> {
    let (tokens, mut diags) = lex(source);
    let mut parser = Parser::new(tokens);
    parser.parse();
    diags.extend(parser.finish());
    diags
}

fn resolve_source(source: &str) -> Vec<Diagnostic> {
    let (tokens, _) = lex(source);
    let mut parser = Parser::new(tokens);
    let program = parser.parse_program();
    resolve(&program)
}

fn check_source(source: &str) -> Vec<Diagnostic> {
    let (tokens, _) = lex(source);
    let mut parser = Parser::new(tokens);
    let program = parser.parse_program();
    type_check(&program)
}

fn run(source: &str) -> (Vec<Value>, Result<(), Diagnostic>) {
    let (tokens, _) = lex(source);
    let mut parser = Parser::new(tokens);
    let program = parser.parse_program();
    assert!(type_check(&program).is_empty());
    let mut out = Vec::new();
    let result = interpret(&program, &mut out);
    (out, result)
}

// --- lexer -------------------------------------------------------------------

#[test]
fn token_spans_are_ordered_and_end_with_eof() {
    let source = "let total = (1 + 22) * x;\n  if total >= 3 { total; }";
    let (tokens, diags) = lex(source);
    assert!(diags.is_empty());
    assert_eq!(tokens.last().unwrap().kind, TokenKind::Eof);
    assert_eq!(tokens.last().unwrap().span, Span::new(source.len(), source.len()));
    for pair in tokens.windows(2) {
        assert!(pair[0].span.start <= pair[0].span.end);
        assert!(pair[0].span.end <= pair[1].span.start);
        assert_ne!(pair[0].kind, TokenKind::Eof);
    }
}

#[test]
fn block_keywords_and_braces() {
    let kinds: Vec<TokenKind> = lex("if x { } else { }").0.into_iter().map(|t| t.kind).collect();
    assert_eq!(
        kinds,
        vec![
            TokenKind::If,
            TokenKind::Ident("x".to_string()),
            TokenKind::LBrace,
            TokenKind::RBrace,
            TokenKind::Else,
            TokenKind::LBrace,
            TokenKind::RBrace,
            TokenKind::Eof,
        ]
    );
}

#[test]
fn spans_count_bytes_of_non_ascii_names() {
    let (tokens, diags) = lex("é + 1");
    assert!(diags.is_empty());
    assert_eq!(tokens[0].kind, TokenKind::Ident("é".to_string()));
    assert_eq!(tokens[0].span, Span::new(0, 2));
    assert_eq!(tokens[1].span, Span::new(3, 4));
    assert_eq!(tokens[3].span, Span::new(6, 6));
}

#[test]
fn unknown_multibyte_character_spans_its_bytes() {
    let (tokens, diags) = lex("€");
    assert_eq!(tokens[0].kind, TokenKind::Unknown('€'));
    assert_eq!(tokens[0].span, Span::new(0, 3));
    assert_eq!(messages(&diags), vec!["unknown character '€'".to_string()]);
    assert_eq!(diags[0].span, Span::new(0, 3));
    assert_eq!(diags[0].severity, Severity::Error);
}

#[test]
fn largest_integer_literal_fits() {
    let (tokens, diags) = lex("9223372036854775807");
    assert!(diags.is_empty());
    assert_eq!(tokens[0].kind, TokenKind::Integer(i64::MAX));
}

#[test]
fn overflowing_integer_literal_is_reported() {
    let (tokens, diags) = lex("x 9223372036854775808");
    assert_eq!(tokens[1].kind, TokenKind::Integer(0));
    assert_eq!(tokens[1].span, Span::new(2, 21));
    assert_eq!(
        messages(&diags),
        vec!["integer literal '9223372036854775808' overflows i64".to_string()]
    );
    assert_eq!(diags[0].span, Span::new(2, 21));
}

#[test]
fn leading_zeros_are_read() {
    assert_eq!(lex("007").0[0].kind, TokenKind::Integer(7));
}

#[test]
fn whitespace_of_all_kinds_is_skipped() {
    let (tokens, diags) = lex("\t1\r\n\u{a0}2\u{2003}");
    assert!(diags.is_empty());
    assert_eq!(tokens[0].kind, TokenKind::Integer(1));
    assert_eq!(tokens[1].kind, TokenKind::Integer(2));
    assert_eq!(tokens[1].span, Span::new(6, 7));
    assert_eq!(tokens[2].kind, TokenKind::Eof);
}

#[test]
fn underscore_starts_a_name() {
    assert_eq!(lex("_a1").0[0].kind, TokenKind::Ident("_a1".to_string()));
}

// --- parser ------------------------------------------------------------------

#[test]
fn unexpected_token_message_names_the_token() {
    let diags = program_diags("*;");
    assert_eq!(messages(&diags), vec!["unexpected token: Star".to_string()]);
    assert_eq!(diags[0].span, Span::new(0, 1));
}

#[test]
fn trailing_tokens_are_named_in_the_message() {
    assert_eq!(
        messages(&whole_expr_diags("1 2")),
        vec!["unexpected token after expression: Integer(2)".to_string()]
    );
    assert_eq!(
        messages(&whole_expr_diags("1 -")),
        vec!["unexpected end of input".to_string()]
    );
    assert_eq!(
        messages(&whole_expr_diags("1 x")),
        vec!["unexpected token after expression: Ident(\"x\")".to_string()]
    );
    assert_eq!(
        messages(&whole_expr_diags("1 @")),
        vec![
            "unknown character '@'".to_string(),
            "unexpected token after expression: Unknown('@')".to_string()
        ]
    );
    assert_eq!(
        messages(&whole_expr_diags("1 -5")),
        Vec::<String>::new()
    );
}

#[test]
fn missing_paren_message_and_span() {
    let diags = whole_expr_diags("(1");
    assert_eq!(messages(&diags), vec!["expected ')'".to_string()]);
    assert_eq!(diags[0].span, Span::new(2, 2));
}

#[test]
fn statement_errors_have_exact_messages() {
    assert_eq!(
        messages(&program_diags("let 1 = 2;")),
        vec!["expected identifier after 'let'".to_string()]
    );
    assert_eq!(
        messages(&program_diags("let x 2;")),
        vec!["expected '=' after binding name".to_string()]
    );
    assert_eq!(
        messages(&program_diags("let x = 2")),
        vec!["expected ';' after 'let' statement".to_string()]
    );
    assert_eq!(
        messages(&program_diags("2 }")),
        vec!["expected ';' after expression".to_string(), "unexpected token: RBrace".to_string()]
    );
    assert_eq!(
        messages(&program_diags("if true 1;")),
        vec!["expected '{'".to_string()]
    );
    assert_eq!(messages(&program_diags("{")), vec!["expected '}'".to_string()]);
}

#[test]
fn recovery_skips_to_the_next_semicolon() {
    let (tokens, _) = lex("let = 1 2 3; x; + ; y;");
    let mut parser = Parser::new(tokens);
    let program = parser.parse_program();
    let diags = parser.finish();
    assert_eq!(diags.len(), 2);
    assert_eq!(program.stmts.len(), 2);
    assert!(matches!(&program.stmts[0].inner, Stmt::Expr(e) if matches!(&e.inner, Expr::Ident(n) if n == "x")));
    assert!(matches!(&program.stmts[1].inner, Stmt::Expr(e) if matches!(&e.inner, Expr::Ident(n) if n == "y")));
}

#[test]
fn comparison_and_binary_spans() {
    let (tokens, _) = lex("a * b + c");
    let mut parser = Parser::new(tokens);
    let node = parser.parse().unwrap();
    assert_eq!(node.span, Span::new(0, 9));
    match node.inner {
        Expr::Binary { op_span, left, .. } => {
            assert_eq!(op_span, Span::new(6, 7));
            assert_eq!(left.span, Span::new(0, 5));
        }
        _ => panic!("expected Binary"),
    }
}

#[test]
fn parse_program_stops_at_eof() {
    let (tokens, _) = lex("1; 2;");
    let mut parser = Parser::new(tokens);
    assert_eq!(parser.parse_program().stmts.len(), 2);
    assert_eq!(parser.parse_program().stmts.len(), 0);
    assert!(parser.finish().is_empty());
}

// --- resolver ----------------------------------------------------------------

#[test]
fn duplicate_binding_message_gives_first_span() {
    let diags = resolve_source("let x = 1;\nlet x = 2;");
    assert_eq!(
        messages(&diags),
        vec!["name 'x' is already defined (first defined at 4:5)".to_string()]
    );
}

#[test]
fn names_bound_in_a_block_end_with_it() {
    let diags = resolve_source("{ let x = 1; x; }\nx;");
    assert_eq!(messages(&diags), vec!["undefined name 'x'".to_string()]);
    assert_eq!(diags[0].span, Span::new(18, 19));
}

#[test]
fn outer_names_are_visible_and_taken_in_blocks() {
    assert!(resolve_source("let x = 1; if x < 2 { x; } else { x; }").is_empty());
    assert_eq!(
        messages(&resolve_source("let x = 1; { let x = 2; }")),
        vec!["name 'x' is already defined (first defined at 4:5)".to_string()]
    );
}

// --- type checker -------------------------------------------------------------

#[test]
fn type_error_messages_are_exact() {
    assert_eq!(
        messages(&check_source("if 1 { }")),
        vec!["'if' condition must be Bool, got Int".to_string()]
    );
    assert_eq!(
        messages(&check_source("let b = true;\nb + 1;")),
        vec!["operator 'Add' requires Int on left, got Bool".to_string()]
    );
    assert_eq!(
        messages(&check_source("let b = true;\n1 >= b;")),
        vec!["operator 'Ge' requires Int on right, got Bool".to_string()]
    );
    assert_eq!(
        messages(&check_source("-true;")),
        vec!["operator '-' requires Int, got Bool".to_string()]
    );
}

#[test]
fn name_of_an_untyped_binding_is_missing() {
    let diags = check_source("let x = true * 2;\nx;");
    assert_eq!(
        messages(&diags),
        vec![
            "operator 'Mul' requires Int on left, got Bool".to_string(),
            "internal: name 'x' not in type environment".to_string()
        ]
    );
    assert_eq!(diags[1].span, Span::new(18, 19));
}

#[test]
fn block_bindings_do_not_leak_into_types() {
    let diags = check_source("let x = 1; { let x = true; } x + 1;");
    assert!(diags.is_empty());
}

// --- interpreter ---------------------------------------------------------------

#[test]
fn expression_statements_are_printed_in_order() {
    let (out, result) = run("let x = 3; x * x; x < 4; if x == 3 { 10; } else { 20; }");
    assert!(result.is_ok());
    assert_eq!(out, vec![Value::Int(9), Value::Bool(true), Value::Int(10)]);
}

#[test]
fn arithmetic_wraps_around() {
    let (out, _) = run("9223372036854775807 + 1; -(-9223372036854775807 - 1); (-9223372036854775807 - 1) / -1;");
    assert_eq!(out, vec![Value::Int(i64::MIN), Value::Int(i64::MIN), Value::Int(i64::MIN)]);
}

#[test]
fn division_rounds_toward_zero() {
    let (out, _) = run("-7 / 2; 7 / -2; -7 / -2; 7 / 2; 5 / (-9223372036854775807 - 1);");
    assert_eq!(out, vec![Value::Int(-3), Value::Int(-3), Value::Int(3), Value::Int(3), Value::Int(0)]);
}

#[test]
fn division_by_zero_stops_the_output() {
    let (out, result) = run("1; 2 / 0; 3;");
    assert_eq!(out, vec![Value::Int(1)]);
    let err = result.unwrap_err();
    assert_eq!(err.message, "division by zero");
    assert_eq!(err.span, Span::new(5, 6));
}

#[test]
fn runtime_blocks_forget_their_bindings() {
    let (out, result) = run("let x = 1; { let x = 2; x; } x; if false { 5; }");
    assert!(result.is_ok());
    assert_eq!(out, vec![Value::Int(2), Value::Int(1)]);
}

#[test]
fn values_print_as_numbers_and_words() {
    assert_eq!(Value::Int(-42).to_text(), "-42");
    assert_eq!(Value::Int(i64::MIN).to_text(), "-9223372036854775808");
    assert_eq!(Value::Int(0).to_text(), "0");
    assert_eq!(Value::Bool(true).to_text(), "true");
    assert_eq!(Value::Bool(false).to_text(), "false");
}

// --- diagnostics ---------------------------------------------------------------

#[test]
fn render_gives_line_and_column() {
    let source = "ab\ncd";
    let d = Diagnostic::error("bad".to_string(), Span::new(4, 5));
    assert_eq!(render(source, &d), "error: [2:2] bad");
    let w = Diagnostic::warning("odd".to_string(), Span::new(0, 1));
    assert_eq!(render(source, &w), "warning: [1:1] odd");
    let past = Diagnostic::error("end".to_string(), Span::new(99, 99));
    assert_eq!(render(source, &past), "error: [2:3] end");
}

#[test]
fn render_after_a_line_feed_stays_on_the_line() {
    let d = Diagnostic::error("x".to_string(), Span::new(3, 4));
    assert_eq!(render("ab\ncd", &d), "error: [1:3] x");
    let crlf = Diagnostic::error("y".to_string(), Span::new(4, 5));
    assert_eq!(render("ab\r\ncd", &crlf), "error: [1:3] y");
    let wide = Diagnostic::error("z".to_string(), Span::new(3, 4));
    assert_eq!(render("é x", &wide), "error: [1:4] z");
}

// --- front end -----------------------------------------------------------------

#[test]
fn analysis_stops_at_the_first_stage_that_reports() {
    let (program, diags) = analyze("let x = 1; x;");
    assert!(diags.is_empty());
    assert_eq!(program.stmts.len(), 2);

    let (_, diags) = analyze("let x = ; y;");
    assert_eq!(messages(&diags), vec!["unexpected token: Semicolon".to_string()]);

    let (_, diags) = analyze("y; let b = true + 1;");
    assert_eq!(messages(&diags), vec!["undefined name 'y'".to_string()]);

    let (_, diags) = analyze("let b = true + 1;");
    assert_eq!(messages(&diags), vec!["operator 'Add' requires Int on left, got Bool".to_string()]);

    let (_, diags) = analyze("@ y;");
    assert_eq!(messages(&diags), vec!["unknown character '@'".to_string()]);
}

#[test]
fn printed_integers_lex_back_to_themselves() {
    for n in [0i64, 7, 10, 12345, i64::MAX] {
        let text = Value::Int(n).to_text();
        assert_eq!(lex(&text).0[0].kind, TokenKind::Integer(n));
    }
}

#[test]
fn next_token_reads_one_token_at_a_time() {
    let mut lexer = Lexer::new("  x == 1");
    assert_eq!(lexer.next_token(), Token::new(TokenKind::Ident("x".to_string()), 2, 3));
    assert_eq!(lexer.next_token(), Token::new(TokenKind::EqEq, 4, 6));
    assert_eq!(lexer.next_token(), Token::new(TokenKind::Integer(1), 7, 8));
    assert_eq!(lexer.next_token(), Token::new(TokenKind::Eof, 8, 8));
    assert_eq!(lexer.next_token(), Token::new(TokenKind::Eof, 8, 8));
}

// --- white space, and lists with an early end of input -------------------------

fn kinds(source: &str) -> Vec<TokenKind> {
    lex(source).0.into_iter().map(|t| t.kind).collect()
}

#[test]
fn white_space_only_gives_eof_again_and_again() {
    let mut lexer = Lexer::new("  \n\t");
    for _ in 0..3 {
        let token = lexer.next_token();
        assert_eq!(token, Token::new(TokenKind::Eof, 4, 4));
    }
    let (tokens, diags) = lexer.tokenize();
    assert_eq!(tokens, vec![Token::new(TokenKind::Eof, 4, 4)]);
    assert!(diags.is_empty());
}

#[test]
fn spaces_at_token_ends_keep_kinds_and_messages() {
    let tight = "let x=1+2*(3-4)<=5;$!99999999999999999999";
    let loose = "let x = 1 + 2 * ( 3 - 4 ) <= 5 ; $ ! 99999999999999999999  ";
    assert_eq!(kinds(tight), kinds(loose));
    assert_eq!(messages(&lex(tight).1), messages(&lex(loose).1));
    assert_eq!(messages(&lex(tight).1).len(), 3);
}

#[test]
fn unicode_white_space_at_token_ends_keeps_kinds_and_messages() {
    let tight = "x=y*2;$";
    let loose = "x\u{a0}=\u{3000}y\u{2003}*2\u{85};\u{2028}$\u{a0}";
    assert_eq!(kinds(tight), kinds(loose));
    assert_eq!(messages(&lex(tight).1), messages(&lex(loose).1));
}

#[test]
fn space_inside_a_token_is_not_at_a_boundary() {
    assert_eq!(kinds("=="), vec![TokenKind::EqEq, TokenKind::Eof]);
    assert_eq!(kinds("= ="), vec![TokenKind::Eq, TokenKind::Eq, TokenKind::Eof]);
}

#[test]
fn parser_stops_at_the_first_eof() {
    let tokens = vec![Token::new(TokenKind::Eof, 0, 0), Token::new(TokenKind::Integer(1), 1, 2)];
    let mut parser = Parser::new(tokens);
    let program = parser.parse_program();
    assert!(program.stmts.is_empty());
    assert!(parser.finish().is_empty());
}

#[test]
fn parser_ignores_tokens_after_an_early_eof() {
    let tokens = vec![
        Token::new(TokenKind::Integer(7), 0, 1),
        Token::new(TokenKind::Semicolon, 1, 2),
        Token::new(TokenKind::Eof, 2, 2),
        Token::new(TokenKind::Ident("y".to_string()), 3, 4),
    ];
    let mut parser = Parser::new(tokens);
    let program = parser.parse_program();
    assert_eq!(program.stmts.len(), 1);
    assert!(matches!(program.stmts[0].inner, Stmt::Expr(_)));
    assert!(parser.finish().is_empty());
}
