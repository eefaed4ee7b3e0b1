use rlox::ast_printer::AstPrinter;
use rlox::expr::{Binary, Expr, Grouping, Literal, LiteralValue, Unary};
use rlox::number::Number;
use rlox::token::{Token, TokenType};

fn op(token_type: TokenType, lexeme: &str) -> Token {
    Token {
        token_type,
        lexeme: lexeme.to_string(),
        literal: None,
        line: 1,
    }
}

fn num_lit(value: i64) -> Expr {
    Expr::Literal(Literal {
        value: LiteralValue::Number(Number::from_int(value)),
    })
}

#[test]
fn test_literal_number() {
    // number : 42
    // Given
    let expr = num_lit(42);

    // When
    let printer = AstPrinter::new();
    let result = printer.print(&expr);

    assert_eq!(result, "42");
}

#[test]
fn test_literal_string() {
    // "hello world"
    // Given
    let expr = Expr::Literal(Literal {
        value: LiteralValue::String("hello world".to_string()),
    });

    // When
    let printer = AstPrinter::new();
    let result = printer.print(&expr);

    assert_eq!(result, "hello world");
}

#[test]
fn test_literal_bool() {
    // Given
    let true_expr = Expr::Literal(Literal {
        value: LiteralValue::Bool(true),
    });

    let false_expr = Expr::Literal(Literal {
        value: LiteralValue::Bool(false),
    });

    // When
    let printer = AstPrinter::new();
    let true_result = printer.print(&true_expr);
    let false_result = printer.print(&false_expr);

    // Then
    assert_eq!(true_result, "true");
    assert_eq!(false_result, "false");
}

#[test]
fn test_literal_nil() {
    // Given
    let expr = Expr::Literal(Literal {
        value: LiteralValue::Nil,
    });

    // When
    let printer = AstPrinter::new();
    let result = printer.print(&expr);

    // Then
    assert_eq!(result, "nil");
}

#[test]
fn test_simple_binary() {
    //  Given: Expression : 1 + 2
    let expr = Expr::Binary(Binary {
        left: Box::new(num_lit(1)),
        operator: op(TokenType::Plus, "+"),
        right: Box::new(num_lit(2)),
    });

    //When
    let printer = AstPrinter::new();
    let result = printer.print(&expr);

    // Then
    assert_eq!(result, "(+ 1 2)");
}

#[test]
fn test_binary_comparison() {
    // 5 == 5
    // Given
    let expr = Expr::Binary(Binary {
        left: Box::new(num_lit(5)),
        operator: op(TokenType::EqualEqual, "=="),
        right: Box::new(num_lit(5)),
    });

    // When
    let printer = AstPrinter::new();
    let result = printer.print(&expr);

    // Then
    assert_eq!(result, "(== 5 5)");
}

#[test]
fn ast_printer_test_unary_minus() {
    // Given: -5
    let expr = Expr::Unary(Unary {
        operator: op(TokenType::Minus, "-"),
        right: Box::new(num_lit(5)),
    });

    // When
    let printer = AstPrinter::new();
    let result = printer.print(&expr);

    assert_eq!(result, "(- 5)");
}

#[test]
fn test_unary_not() {
    // Given: !true
    let expr = Expr::Unary(Unary {
        operator: op(TokenType::Bang, "!"),
        right: Box::new(Expr::Literal(Literal {
            value: LiteralValue::Bool(true),
        })),
    });

    // When
    let printer = AstPrinter::new();
    let result = printer.print(&expr);

    assert_eq!(result, "(! true)");
}

#[test]
fn ast_printer_test_grouping() {
    // Given: (42)
    let expr = Expr::Grouping(Grouping {
        expression: Box::new(num_lit(42)),
    });

    // When
    let printer = AstPrinter::new();
    let result = printer.print(&expr);

    // Then
    assert_eq!(result, "(group 42)");
}

#[test]
fn test_nested_unary() {
    // Given: --5
    let expr = Expr::Unary(Unary {
        operator: op(TokenType::Minus, "-"),
        right: Box::new(Expr::Unary(Unary {
            operator: op(TokenType::Minus, "-"),
            right: Box::new(num_lit(5)),
        })),
    });

    // When
    let printer = AstPrinter::new();
    let result = printer.print(&expr);

    // Then
    assert_eq!(result, "(- (- 5))");
}

#[test]
fn test_complex_nested() {
    // Given: -(1 + 2)
    let expr = Expr::Unary(Unary {
        operator: op(TokenType::Minus, "-"),
        right: Box::new(Expr::Grouping(Grouping {
            expression: Box::new(Expr::Binary(Binary {
                left: Box::new(num_lit(1)),
                operator: op(TokenType::Plus, "+"),
                right: Box::new(num_lit(2)),
            })),
        })),
    });

    // When
    let printer = AstPrinter::new();
    let result = printer.print(&expr);

    // Then
    assert_eq!(result, "(- (group (+ 1 2)))");
}

#[test]
fn test_book_example() {
    // Given: -123 * (45.67) - example in the book
    let expr = Expr::Binary(Binary {
        left: Box::new(Expr::Unary(Unary {
            operator: op(TokenType::Minus, "-"),
            right: Box::new(num_lit(123)),
        })),
        operator: op(TokenType::Star, "*"),
        right: Box::new(Expr::Grouping(Grouping {
            expression: Box::new(Expr::Literal(Literal {
                value: LiteralValue::Number(Number::from_scaled(45_670_000_000).unwrap()),
            })),
        })),
    });

    // When
    let printer = AstPrinter::new();
    let result = printer.print(&expr);

    // Then
    assert_eq!(result, "(* (- 123) (group 45.67))");
}

#[test]
fn printing_the_same_tree_twice_is_stable() {
    let expr = Expr::Binary(Binary {
        left: Box::new(num_lit(1)),
        operator: op(TokenType::Plus, "+"),
        right: Box::new(Expr::Grouping(Grouping {
            expression: Box::new(num_lit(2)),
        })),
    });

    let printer = AstPrinter::new();
    let first = printer.print(&expr);
    let second = printer.print(&expr);
    assert_eq!(first, second);
    assert_eq!(first, "(+ 1 (group 2))");
}
