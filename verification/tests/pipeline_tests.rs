//! End-to-end runs of the whole pipeline: source text through the scanner,
//! the parser, and then the printer or the evaluator.
use rlox::ast_printer::AstPrinter;
use rlox::expr::Expr;
use rlox::interpreter::Interpreter;
use rlox::lox_value::LoxValue;
use rlox::number::Number;
use rlox::parser::Parser;
use rlox::scanner::Scanner;

fn parse_source(source: &str) -> Expr {
    let mut scanner = Scanner::new(source.to_string());
    let tokens = scanner.scan_tokens();
    let mut parser = Parser::new(tokens);
    parser.parse().unwrap()
}

fn eval_source(source: &str) -> Result<LoxValue, String> {
    let expr = parse_source(source);
    let mut interpreter = Interpreter::new();
    interpreter.evaluate(&expr).map_err(|e| e.message)
}

#[test]
fn subtraction_chain_is_left_associative() {
    // (8 - 4) - 2, not 8 - (4 - 2)
    assert_eq!(
        eval_source("8 - 4 - 2").unwrap(),
        LoxValue::Number(Number::from_int(2))
    );
}

#[test]
fn multiplication_binds_tighter_than_addition() {
    let expr = parse_source("2 + 3 * 4");
    let printer = AstPrinter::new();
    assert_eq!(printer.print(&expr), "(+ 2 (* 3 4))");
    assert_eq!(
        eval_source("2 + 3 * 4").unwrap(),
        LoxValue::Number(Number::from_int(14))
    );
}

#[test]
fn dividing_by_zero_is_a_runtime_failure() {
    assert_eq!(eval_source("1 / 0").unwrap_err(), "Division by zero.");
}

#[test]
fn subtracting_a_number_from_a_string_is_a_runtime_failure() {
    assert_eq!(
        eval_source("\"a\" - 1").unwrap_err(),
        "Operands must be numbers."
    );
}

#[test]
fn equality_never_crosses_kinds() {
    assert_eq!(eval_source("1 == \"1\"").unwrap(), LoxValue::Bool(false));
    assert_eq!(eval_source("nil == false").unwrap(), LoxValue::Bool(false));
}

#[test]
fn book_example_prints_and_evaluates() {
    let expr = parse_source("-123 * (45.67)");
    let printer = AstPrinter::new();
    assert_eq!(printer.print(&expr), "(* (- 123) (group 45.67))");

    let mut interpreter = Interpreter::new();
    let value = interpreter.evaluate(&expr).unwrap();
    assert_eq!(
        value,
        LoxValue::Number(Number::from_scaled(-5_617_410_000_000).unwrap())
    );
    assert_eq!(value.to_text(), "-5617.41");
}

#[test]
fn bang_equal_is_the_negation_of_equality() {
    assert_eq!(eval_source("1 != 2").unwrap(), LoxValue::Bool(true));
    assert_eq!(eval_source("1 != 1").unwrap(), LoxValue::Bool(false));
}

#[test]
fn comparison_chains_through_the_ladder() {
    assert_eq!(eval_source("1 + 1 < 3").unwrap(), LoxValue::Bool(true));
    assert_eq!(eval_source("2 * 3 >= 7").unwrap(), LoxValue::Bool(false));
}

#[test]
fn string_concatenation_round_trip() {
    assert_eq!(
        eval_source("\"foo\" + \"bar\"").unwrap(),
        LoxValue::String("foobar".to_string())
    );
}

#[test]
fn grouping_overrides_precedence() {
    assert_eq!(
        eval_source("(2 + 3) * 4").unwrap(),
        LoxValue::Number(Number::from_int(20))
    );
}

#[test]
fn decimal_arithmetic_is_exact_on_the_grid() {
    let value = eval_source("0.1 + 0.2").unwrap();
    assert_eq!(value.to_text(), "0.3");
}

#[test]
fn division_truncates_toward_zero() {
    let value = eval_source("7 / 2").unwrap();
    assert_eq!(value.to_text(), "3.5");
    let value = eval_source("-1 / 3").unwrap();
    assert_eq!(value.to_text(), "-0.333333333");
}

#[test]
fn double_negation_evaluates_back() {
    let expr = parse_source("--5");
    let printer = AstPrinter::new();
    assert_eq!(printer.print(&expr), "(- (- 5))");
    assert_eq!(
        eval_source("--5").unwrap(),
        LoxValue::Number(Number::from_int(5))
    );
}

#[test]
fn truthiness_of_bang_on_values() {
    assert_eq!(eval_source("!nil").unwrap(), LoxValue::Bool(true));
    assert_eq!(eval_source("!0").unwrap(), LoxValue::Bool(false));
    assert_eq!(eval_source("!\"\"").unwrap(), LoxValue::Bool(false));
    assert_eq!(eval_source("!false").unwrap(), LoxValue::Bool(true));
}
