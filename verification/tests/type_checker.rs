use hiori::diagnostics::Diagnostic;
use hiori::lexer::Lexer;
use hiori::parser::Parser;
use hiori::resolver::resolve;
use hiori::type_checker::type_check;

fn type_check_source(source: &str) -> Vec<Diagnostic> {
    let (tokens, _) = Lexer::new(source).tokenize();
    let mut parser = Parser::new(tokens);
    let program = parser.parse_program();
    let resolver_diags = resolve(&program);
    assert!(
        resolver_diags.is_empty(),
        "resolver errors in type_check test — fix the source: {:?}",
        resolver_diags
    );
    type_check(&program)
}

#[test]
fn type_checker_empty_program() {
    assert!(type_check_source("").is_empty());
}

#[test]
fn single_integer_literal() {
    assert!(type_check_source("let x = 42;").is_empty());
}

#[test]
fn negative_integer_literal() {
    assert!(type_check_source("let x = -1;").is_empty());
}

#[test]
fn type_checker_double_negation() {
    assert!(type_check_source("let x = --1;").is_empty());
}

#[test]
fn binary_addition() {
    assert!(type_check_source("let x = 1 + 2;").is_empty());
}

#[test]
fn binary_subtraction() {
    assert!(type_check_source("let x = 10 - 3;").is_empty());
}

#[test]
fn binary_multiplication() {
    assert!(type_check_source("let x = 4 * 5;").is_empty());
}

#[test]
fn binary_division() {
    assert!(type_check_source("let x = 10 / 2;").is_empty());
}

#[test]
fn identifier_in_expression() {
    assert!(type_check_source("let x = 1;\nlet y = x;").is_empty());
}

#[test]
fn identifier_in_binary() {
    assert!(type_check_source("let a = 1;\nlet b = 2;\nlet c = a + b;").is_empty());
}

#[test]
fn identifier_negated() {
    assert!(type_check_source("let x = 5;\nlet y = -x;").is_empty());
}

#[test]
fn complex_nested_expression() {
    assert!(type_check_source(
        "let a = 1;\nlet b = 2;\nlet c = (a + b) * -(a + 1);"
    ).is_empty());
}

#[test]
fn expression_statement_literal() {
    assert!(type_check_source("1 + 2;").is_empty());
}

#[test]
fn expression_statement_with_bound_name() {
    assert!(type_check_source("let x = 3;\nx + 1;").is_empty());
}

#[test]
fn mixed_let_and_expr_statements() {
    assert!(type_check_source(
        "let x = 10;\nlet y = x + 5;\ny * 2;"
    ).is_empty());
}

#[test]
fn long_binding_chain() {
    assert!(type_check_source(
        "let a = 1;\nlet b = a + 1;\nlet c = b + 1;\nlet d = c + 1;"
    ).is_empty());
}

#[test]
fn precedence_and_parentheses() {
    assert!(type_check_source(
        "let x = (1 + 2) * (3 - 4) / -5;"
    ).is_empty());
}

#[test]
fn bool_literal_true() {
    assert!(type_check_source("let b = true;").is_empty());
}

#[test]
fn bool_literal_false() {
    assert!(type_check_source("let b = false;").is_empty());
}

#[test]
fn comparison_int_int_produces_bool() {
    assert!(type_check_source("let b = 1 < 2;").is_empty());
    assert!(type_check_source("let b = 1 == 2;").is_empty());
    assert!(type_check_source("let b = 1 != 2;").is_empty());
    assert!(type_check_source("let b = 1 <= 2;").is_empty());
    assert!(type_check_source("let b = 1 >= 2;").is_empty());
    assert!(type_check_source("let b = 1 > 2;").is_empty());
}

#[test]
fn comparison_with_bound_name_is_valid() {
    assert!(type_check_source("let x = 3;\nlet b = x < 10;").is_empty());
}

#[test]
fn bool_stored_and_used_in_expr_stmt() {
    assert!(type_check_source("let b = true;\nb;").is_empty());
}

#[test]
fn bool_in_binary_left_is_type_error() {
    let diags = type_check_source("let b = true;\nlet x = b + 1;");
    assert!(!diags.is_empty());
}

#[test]
fn bool_in_binary_right_is_type_error() {
    let diags = type_check_source("let b = true;\nlet x = 1 + b;");
    assert!(!diags.is_empty());
}

#[test]
fn neg_bool_is_type_error() {
    let diags = type_check_source("let b = true;\nlet x = -b;");
    assert!(!diags.is_empty());
}

#[test]
fn chained_comparison_is_type_error() {
    let diags = type_check_source("let b = 1 < 2 < 3;");
    assert!(!diags.is_empty());
}

#[test]
fn bool_as_compare_left_operand_is_type_error() {
    let diags = type_check_source("let b = true;\nlet x = b < 1;");
    assert!(!diags.is_empty());
}

    #[test]
fn if_bool_condition_is_ok() {
    assert!(type_check_source("if true { }").is_empty());
}

#[test]
fn if_comparison_condition_is_ok() {
    assert!(type_check_source("if 1 < 2 { }").is_empty());
}

#[test]
fn if_int_condition_is_type_error() {
    let diags = type_check_source("if 1 { }");
    assert!(!diags.is_empty());
    assert!(diags[0].message.contains("Bool"));
}

#[test]
fn if_int_expr_condition_is_type_error() {
    let diags = type_check_source("if 1 + 2 { }");
    assert!(!diags.is_empty());
    assert!(diags[0].message.contains("Bool"));
}

#[test]
fn if_else_bool_condition_is_ok() {
    assert!(type_check_source("if true { 1; } else { 2; }").is_empty());
}

#[test]
fn if_block_binding_has_correct_type() {
    assert!(type_check_source("if true { let x = 1;\nx; }").is_empty());
}

#[test]
fn if_block_binding_not_in_env_after_block() {
    assert!(type_check_source(
        "let a = 1;\nif true { let b = 2; }\na;"
    ).is_empty());
}

#[test]
fn both_blocks_type_checked_independently() {
    assert!(type_check_source(
        "if 1 < 2 { let x = 1; } else { let y = 2; }"
    ).is_empty());
}

#[test]
fn bool_value_in_then_block_is_ok() {
    assert!(type_check_source("if true { let b = 1 < 2;\nb; }").is_empty());
}

#[test]
fn type_error_inside_block_is_reported() {
    let diags = type_check_source("if true { let b = true;\nb + 1; }");
    assert!(!diags.is_empty());
}

#[test]
fn nested_if_type_checked() {
    assert!(type_check_source(
        "let x = 1;\nif true { if x < 2 { x; } }"
    ).is_empty());
}
