use rlox::expr::LiteralValue;
use rlox::lox_value::LoxValue;
use rlox::number::Number;

fn num(i: i64) -> Number {
    Number::from_int(i)
}

fn num_scaled(scaled: i128) -> Number {
    Number::from_scaled(scaled).unwrap()
}

// ===== Truthiness Tests =====

#[test]
fn test_is_truthy_bool_false() {
    let bool_false = LoxValue::Bool(false);
    assert_eq!(bool_false.is_truthy(), false);
}

#[test]
fn test_is_truthy_bool_true() {
    let bool_true = LoxValue::Bool(true);
    assert_eq!(bool_true.is_truthy(), true);
}

#[test]
fn test_is_truthy_nil() {
    let nil_false = LoxValue::Nil;
    assert_eq!(nil_false.is_truthy(), false);
}

#[test]
fn test_is_truthy_number_zero() {
    let number_zero = LoxValue::Number(num(0));
    assert_eq!(number_zero.is_truthy(), true);
}

#[test]
fn test_is_truthy_number_positive() {
    let number_positive = LoxValue::Number(num(42));
    assert_eq!(number_positive.is_truthy(), true);
}

#[test]
fn test_is_truthy_number_negative() {
    let number_negative = LoxValue::Number(num(-5));
    assert_eq!(number_negative.is_truthy(), true);
}

#[test]
fn test_is_truthy_string_empty() {
    let string_empty = LoxValue::String(String::from(""));
    assert_eq!(string_empty.is_truthy(), true);
}

#[test]
fn test_is_truthy_string_non_empty() {
    let string_non_empty = LoxValue::String(String::from("hello"));
    assert_eq!(string_non_empty.is_truthy(), true);
}

// ===== Type Checker Tests =====

#[test]
fn test_as_number_success() {
    let lox_number = LoxValue::Number(num(42));
    assert_eq!(lox_number.as_number(), Some(num(42)));
}

#[test]
fn test_as_number_failure() {
    let lox_string = LoxValue::String(String::from("not a number"));
    assert_eq!(lox_string.as_number(), None);

    let lox_bool = LoxValue::Bool(true);
    assert_eq!(lox_bool.as_number(), None);

    let lox_nil = LoxValue::Nil;
    assert_eq!(lox_nil.as_number(), None);
}

#[test]
fn test_as_string_success() {
    let lox_string = LoxValue::String(String::from("Hello World"));
    assert_eq!(lox_string.as_string(), Some("Hello World"));
}

#[test]
fn test_as_string_failure() {
    let lox_number = LoxValue::Number(num(42));
    assert_eq!(lox_number.as_string(), None);

    let lox_bool = LoxValue::Bool(true);
    assert_eq!(lox_bool.as_string(), None);

    let lox_nil = LoxValue::Nil;
    assert_eq!(lox_nil.as_string(), None);
}

#[test]
fn test_as_bool_success() {
    let lox_bool_true = LoxValue::Bool(true);
    assert_eq!(lox_bool_true.as_bool(), Some(true));

    let lox_bool_false = LoxValue::Bool(false);
    assert_eq!(lox_bool_false.as_bool(), Some(false));
}

#[test]
fn test_as_bool_failure() {
    let lox_number = LoxValue::Number(num(42));
    assert_eq!(lox_number.as_bool(), None);

    let lox_string = LoxValue::String(String::from("true"));
    assert_eq!(lox_string.as_bool(), None);

    let lox_nil = LoxValue::Nil;
    assert_eq!(lox_nil.as_bool(), None);
}

#[test]
fn test_as_nil_success() {
    let lox_nil = LoxValue::Nil;
    assert_eq!(lox_nil.as_nil(), true);
}

#[test]
fn test_as_nil_failure() {
    let lox_number = LoxValue::Number(num(42));
    assert_eq!(lox_number.as_nil(), false);

    let lox_string = LoxValue::String(String::from("nil"));
    assert_eq!(lox_string.as_nil(), false);

    let lox_bool = LoxValue::Bool(false);
    assert_eq!(lox_bool.as_nil(), false);
}

// ===== Display Tests =====

#[test]
fn test_display_number_integer() {
    assert_eq!(LoxValue::Number(num(42)).to_text(), "42");
    assert_eq!(LoxValue::Number(num(0)).to_text(), "0");
    assert_eq!(LoxValue::Number(num(-5)).to_text(), "-5");
}

#[test]
fn test_display_number_float() {
    assert_eq!(LoxValue::Number(num_scaled(3_140_000_000)).to_text(), "3.14");
    assert_eq!(LoxValue::Number(num_scaled(500_000_000)).to_text(), "0.5");
    assert_eq!(
        LoxValue::Number(num_scaled(-2_718_000_000)).to_text(),
        "-2.718"
    );
}

#[test]
fn test_display_string() {
    assert_eq!(LoxValue::String(String::from("hello")).to_text(), "hello");
    assert_eq!(LoxValue::String(String::from("")).to_text(), "");
    assert_eq!(
        LoxValue::String(String::from("Hello World!")).to_text(),
        "Hello World!"
    );
}

#[test]
fn test_display_bool() {
    assert_eq!(LoxValue::Bool(true).to_text(), "true");
    assert_eq!(LoxValue::Bool(false).to_text(), "false");
}

#[test]
fn test_display_nil() {
    assert_eq!(LoxValue::Nil.to_text(), "nil");
}

// ===== From<LiteralValue> Tests =====

#[test]
fn test_from_literal_number() {
    let literal = LiteralValue::Number(num(42));
    let lox_value: LoxValue = literal.into();
    assert_eq!(lox_value, LoxValue::Number(num(42)));
}

#[test]
fn test_from_literal_string() {
    let literal = LiteralValue::String(String::from("test"));
    let lox_value: LoxValue = literal.into();
    assert_eq!(lox_value, LoxValue::String(String::from("test")));
}

#[test]
fn test_from_literal_bool() {
    let literal_true = LiteralValue::Bool(true);
    let lox_value_true: LoxValue = literal_true.into();
    assert_eq!(lox_value_true, LoxValue::Bool(true));

    let literal_false = LiteralValue::Bool(false);
    let lox_value_false: LoxValue = literal_false.into();
    assert_eq!(lox_value_false, LoxValue::Bool(false));
}

#[test]
fn test_from_literal_nil() {
    let literal = LiteralValue::Nil;
    let lox_value: LoxValue = literal.into();
    assert_eq!(lox_value, LoxValue::Nil);
}

// ===== Edge Cases =====

#[test]
fn test_string_special_characters() {
    let newline = LoxValue::String(String::from("hello\nworld"));
    assert_eq!(newline.to_text(), "hello\nworld");

    let tab = LoxValue::String(String::from("hello\tworld"));
    assert_eq!(tab.to_text(), "hello\tworld");

    let quote = LoxValue::String(String::from("say \"hello\""));
    assert_eq!(quote.to_text(), "say \"hello\"");
}

// ===== Clone and PartialEq Tests =====

#[test]
fn test_clone() {
    let original = LoxValue::Number(num(42));
    let cloned = original.clone();
    assert_eq!(original, cloned);

    let string_original = LoxValue::String(String::from("hello"));
    let string_cloned = string_original.clone();
    assert_eq!(string_original, string_cloned);
}

#[test]
fn test_equality() {
    // Same type, same value
    assert_eq!(LoxValue::Number(num(42)), LoxValue::Number(num(42)));
    assert_eq!(
        LoxValue::String(String::from("hello")),
        LoxValue::String(String::from("hello"))
    );
    assert_eq!(LoxValue::Bool(true), LoxValue::Bool(true));
    assert_eq!(LoxValue::Nil, LoxValue::Nil);

    // Different values
    assert_ne!(LoxValue::Number(num(42)), LoxValue::Number(num(43)));
    assert_ne!(
        LoxValue::String(String::from("hello")),
        LoxValue::String(String::from("world"))
    );
    assert_ne!(LoxValue::Bool(true), LoxValue::Bool(false));

    // Different types
    assert_ne!(LoxValue::Number(num(42)), LoxValue::String(String::from("42")));
    assert_ne!(LoxValue::Bool(true), LoxValue::Number(num(1)));
    assert_ne!(LoxValue::Nil, LoxValue::Bool(false));
}

// ===== Structural equality through the library's own comparison =====

#[test]
fn equals_method_matches_structural_equality() {
    assert!(LoxValue::Number(num(42)).equals(&LoxValue::Number(num(42))));
    assert!(!LoxValue::Number(num(1)).equals(&LoxValue::String(String::from("1"))));
    assert!(!LoxValue::Nil.equals(&LoxValue::Bool(false)));
    assert!(LoxValue::String(String::from("a")).equals(&LoxValue::String(String::from("a"))));
}

#[test]
fn number_division_result_displays_truncated_decimal() {
    let one = num(1);
    let three = num(3);
    let q = one.checked_div(&three).unwrap();
    assert_eq!(LoxValue::Number(q).to_text(), "0.333333333");
}
