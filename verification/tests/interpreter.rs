use hiori::diagnostics::Diagnostic;
use hiori::interpreter::interpret;
use hiori::lexer::Lexer;
use hiori::parser::Parser;
use hiori::resolver::resolve;
use hiori::type_checker::type_check;

fn run(source: &str) -> Result<(), Diagnostic> {
    let (tokens, _) = Lexer::new(source).tokenize();
    let mut parser = Parser::new(tokens);
    let program = parser.parse_program();

    let resolver_diags = resolve(&program);
    assert!(resolver_diags.is_empty(), "resolver errors: {:?}", resolver_diags);

    let type_diags = type_check(&program);
    assert!(type_diags.is_empty(), "type errors: {:?}", type_diags);

    let mut out = Vec::new();
    interpret(&program, &mut out)
}

#[test]
fn interpreter_empty_program() {
    assert!(run("").is_ok());
}

#[test]
fn let_only_program_is_ok() {
    assert!(run("let x = 42;").is_ok());
}

#[test]
fn expr_statement_is_ok() {
    assert!(run("1 + 2;").is_ok());
}

#[test]
fn let_then_expr_statement_is_ok() {
    assert!(run("let x = 10;\nx * 2;").is_ok());
}

#[test]
fn multiple_expr_statements_are_ok() {
    assert!(run("let x = 10;\nx;\nx + 1;\nx * 2;").is_ok());
}

#[test]
fn negation_is_ok() {
    assert!(run("let x = -5;").is_ok());
}

#[test]
fn double_negation_is_ok() {
    assert!(run("let x = --5;").is_ok());
}

#[test]
fn complex_expression_is_ok() {
    assert!(run("let a = 3;\nlet b = 4;\na * a + b * b;").is_ok());
}

#[test]
fn nonzero_division_is_ok() {
    assert!(run("10 / 2;").is_ok());
}

#[test]
fn long_binding_chain_is_ok() {
    assert!(run("let a = 1;\nlet b = a + 1;\nlet c = b + 1;\nc;").is_ok());
}

#[test]
fn division_by_zero_literal_is_err() {
    let err = run("10 / 0;").unwrap_err();
    assert!(err.message.contains("division by zero"));
}

#[test]
fn division_by_zero_via_binding_is_err() {
    let err = run("let x = 0;\n10 / x;").unwrap_err();
    assert!(err.message.contains("division by zero"));
}

#[test]
fn division_by_zero_in_let_value_is_err() {
    let err = run("let x = 1 / 0;").unwrap_err();
    assert!(err.message.contains("division by zero"));
}

#[test]
fn division_by_zero_stops_evaluation() {
    assert!(run("1 / 0;\n2 + 2;").is_err());
}

#[test]
fn division_by_zero_span_is_operator_token() {
    let err = run("10 / 0;").unwrap_err();
    assert_eq!(err.span.start, 3);
    assert_eq!(err.span.end,   4);
}

#[test]
fn division_by_zero_in_let_operator_span() {
    let err = run("let x = 1 / 0;").unwrap_err();
    assert_eq!(err.span.start, 10);
    assert_eq!(err.span.end,   11);
}

#[test]
fn division_by_zero_via_binding_operator_span() {
    let err = run("let x = 0;\n10 / x;").unwrap_err();
    assert_eq!(err.span.start, 14);
    assert_eq!(err.span.end,   15);
}
