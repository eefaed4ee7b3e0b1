//! A small tree-walking evaluator for arithmetic and logical expressions in a
//! C-like scripting language: source text is scanned into tokens, tokens are
//! parsed into a syntax tree by recursive descent, and the tree is either
//! rendered as fully parenthesized prefix notation or evaluated to a runtime
//! value.
pub mod ast_printer;
mod chars;
pub mod expr;
pub mod interpreter;
pub mod lox_value;
pub mod number;
pub mod parser;
pub mod runtime_error;
pub mod scanner;
pub mod token;
