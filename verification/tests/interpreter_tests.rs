use rlox::expr::{Binary, Expr, Literal, LiteralValue, Unary, Variable};
use rlox::interpreter::Interpreter;
use rlox::lox_value::LoxValue;
use rlox::number::Number;
use rlox::token::{Token, TokenType};

fn num(i: i64) -> Number {
    Number::from_int(i)
}

fn op(token_type: TokenType, lexeme: &str) -> Token {
    Token {
        token_type,
        lexeme: lexeme.to_string(),
        literal: None,
        line: 1,
    }
}

fn num_lit(value: i64) -> Expr {
    Expr::Literal(Literal {
        value: LiteralValue::Number(Number::from_int(value)),
    })
}

#[test]
fn test_evaluate_literal_number() {
    let mut interpreter = Interpreter::new();
    let expr = num_lit(42);
    let result = interpreter.evaluate(&expr).unwrap();
    assert_eq!(result, LoxValue::Number(num(42)));
}

#[test]
fn test_evaluate_unary_minus() {
    let mut interpreter = Interpreter::new();
    let token = op(TokenType::Minus, "-");
    let expr = Expr::Unary(Unary {
        operator: token,
        right: Box::new(num_lit(5)),
    });
    let result = interpreter.evaluate(&expr).unwrap();
    assert_eq!(result, LoxValue::Number(num(-5)));
}

#[test]
fn test_evaluate_binary_addition() {
    let mut interpreter = Interpreter::new();
    let token = op(TokenType::Plus, "+");
    let expr = Expr::Binary(Binary {
        left: Box::new(num_lit(1)),
        operator: token,
        right: Box::new(num_lit(2)),
    });
    let result = interpreter.evaluate(&expr).unwrap();
    assert_eq!(result, LoxValue::Number(num(3)));
}

#[test]
fn unary_bang_is_truthiness_negation() {
    let mut interpreter = Interpreter::new();
    let expr = Expr::Unary(Unary {
        operator: op(TokenType::Bang, "!"),
        right: Box::new(num_lit(0)),
    });
    // zero is truthy, so !0 is false
    assert_eq!(interpreter.evaluate(&expr).unwrap(), LoxValue::Bool(false));

    let expr = Expr::Unary(Unary {
        operator: op(TokenType::Bang, "!"),
        right: Box::new(Expr::Literal(Literal {
            value: LiteralValue::Nil,
        })),
    });
    assert_eq!(interpreter.evaluate(&expr).unwrap(), LoxValue::Bool(true));
}

#[test]
fn unary_minus_on_string_is_a_type_failure() {
    let mut interpreter = Interpreter::new();
    let expr = Expr::Unary(Unary {
        operator: op(TokenType::Minus, "-"),
        right: Box::new(Expr::Literal(Literal {
            value: LiteralValue::String("oops".to_string()),
        })),
    });
    let err = interpreter.evaluate(&expr).unwrap_err();
    assert_eq!(err.message, "Operand must be a number.");
}

#[test]
fn plus_on_two_strings_concatenates() {
    let mut interpreter = Interpreter::new();
    let expr = Expr::Binary(Binary {
        left: Box::new(Expr::Literal(Literal {
            value: LiteralValue::String("foo".to_string()),
        })),
        operator: op(TokenType::Plus, "+"),
        right: Box::new(Expr::Literal(Literal {
            value: LiteralValue::String("bar".to_string()),
        })),
    });
    assert_eq!(
        interpreter.evaluate(&expr).unwrap(),
        LoxValue::String("foobar".to_string())
    );
}

#[test]
fn plus_on_mixed_operands_is_a_type_failure() {
    let mut interpreter = Interpreter::new();
    let expr = Expr::Binary(Binary {
        left: Box::new(num_lit(1)),
        operator: op(TokenType::Plus, "+"),
        right: Box::new(Expr::Literal(Literal {
            value: LiteralValue::String("1".to_string()),
        })),
    });
    let err = interpreter.evaluate(&expr).unwrap_err();
    assert_eq!(err.message, "Operands must be two numbers or two strings.");
}

#[test]
fn relational_operators_compare_numbers() {
    let mut interpreter = Interpreter::new();
    let cases = [
        (TokenType::Greater, ">", 5, 3, true),
        (TokenType::GreaterEqual, ">=", 3, 5, false),
        (TokenType::Less, "<", 3, 5, true),
        (TokenType::LessEqual, "<=", 5, 5, true),
    ];
    for (tt, lex, l, r, expected) in cases {
        let expr = Expr::Binary(Binary {
            left: Box::new(num_lit(l)),
            operator: op(tt, lex),
            right: Box::new(num_lit(r)),
        });
        assert_eq!(
            interpreter.evaluate(&expr).unwrap(),
            LoxValue::Bool(expected)
        );
    }
}

#[test]
fn relational_operator_on_strings_is_a_type_failure() {
    let mut interpreter = Interpreter::new();
    let expr = Expr::Binary(Binary {
        left: Box::new(Expr::Literal(Literal {
            value: LiteralValue::String("a".to_string()),
        })),
        operator: op(TokenType::Less, "<"),
        right: Box::new(Expr::Literal(Literal {
            value: LiteralValue::String("b".to_string()),
        })),
    });
    let err = interpreter.evaluate(&expr).unwrap_err();
    assert_eq!(err.message, "Operands must be numbers.");
}

#[test]
fn division_by_zero_is_reported_before_dividing() {
    let mut interpreter = Interpreter::new();
    let expr = Expr::Binary(Binary {
        left: Box::new(num_lit(1)),
        operator: op(TokenType::Slash, "/"),
        right: Box::new(num_lit(0)),
    });
    let err = interpreter.evaluate(&expr).unwrap_err();
    assert_eq!(err.message, "Division by zero.");
    assert_eq!(err.token.lexeme, "/");
}

#[test]
fn overflowing_product_is_a_range_failure() {
    let mut interpreter = Interpreter::new();
    let big = Expr::Literal(Literal {
        value: LiteralValue::Number(
            Number::from_scaled(99_999_999_999_999_999_999_000_000_000).unwrap(),
        ),
    });
    let big2 = Expr::Literal(Literal {
        value: LiteralValue::Number(
            Number::from_scaled(99_999_999_999_999_999_999_000_000_000).unwrap(),
        ),
    });
    let expr = Expr::Binary(Binary {
        left: Box::new(big),
        operator: op(TokenType::Star, "*"),
        right: Box::new(big2),
    });
    let err = interpreter.evaluate(&expr).unwrap_err();
    assert_eq!(err.message, "Number out of range.");
}

#[test]
fn first_failure_wins_left_to_right() {
    let mut interpreter = Interpreter::new();
    // ("a" - 1) + ("b" - 2): the failure from the left operand is reported
    let left_fail = Expr::Binary(Binary {
        left: Box::new(Expr::Literal(Literal {
            value: LiteralValue::String("a".to_string()),
        })),
        operator: op(TokenType::Minus, "-"),
        right: Box::new(num_lit(1)),
    });
    let right_fail = Expr::Binary(Binary {
        left: Box::new(Expr::Literal(Literal {
            value: LiteralValue::String("b".to_string()),
        })),
        operator: Token {
            token_type: TokenType::Minus,
            lexeme: "-".to_string(),
            literal: None,
            line: 2,
        },
        right: Box::new(num_lit(2)),
    });
    let expr = Expr::Binary(Binary {
        left: Box::new(left_fail),
        operator: op(TokenType::Plus, "+"),
        right: Box::new(right_fail),
    });
    let err = interpreter.evaluate(&expr).unwrap_err();
    assert_eq!(err.message, "Operands must be numbers.");
    assert_eq!(err.token.line, 1);
}

#[test]
fn reserved_node_shapes_are_not_supported() {
    let mut interpreter = Interpreter::new();
    let expr = Expr::Variable(Variable {
        name: Token {
            token_type: TokenType::Identifier,
            lexeme: "x".to_string(),
            literal: None,
            line: 7,
        },
    });
    let err = interpreter.evaluate(&expr).unwrap_err();
    assert_eq!(err.message, "This expression is not supported in this subset.");
    assert_eq!(err.token.lexeme, "x");
    assert_eq!(err.token.line, 7);
}
