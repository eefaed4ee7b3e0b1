//! The token model: the closed set of lexical categories and the token record
//! that the scanner produces and the parser consumes.
use vstd::prelude::*;

use crate::number::Number;

verus! {

/// The closed enumeration of lexical categories.
#[derive(Debug, Clone, Copy, PartialEq, Eq, Structural)]
pub enum TokenType {
    // Single-character tokens.
    LeftParen,
    RightParen,
    LeftBrace,
    RightBrace,
    Comma,
    Dot,
    Minus,
    Plus,
    Semicolon,
    Slash,
    Star,
    // One or two character tokens.
    Bang,
    BangEqual,
    Equal,
    EqualEqual,
    Greater,
    GreaterEqual,
    Less,
    LessEqual,
    // Literals.
    Identifier,
    String,
    Number,
    // Keywords.
    And,
    Class,
    Else,
    False,
    Fun,
    For,
    If,
    Nil,
    Or,
    Print,
    Return,
    Super,
    This,
    True,
    Var,
    While,
    Eof,
}

/// The literal payload a token may carry: the parsed value of a number or
/// the text between the quotes of a string.
#[derive(Debug)]
pub enum Literal {
    Number(Number),
    String(String),
    Bool(bool),
    Nil,
}

/// Mathematical model of a literal payload: the number as its scaled integer
/// value, the string as its character sequence.
pub enum LiteralModel {
    Number(int),
    String(Seq<char>),
    Bool(bool),
    Nil,
}

impl View for Literal {
    type V = LiteralModel;

    open spec fn view(&self) -> LiteralModel {
        match self {
            Literal::Number(n) => LiteralModel::Number(n@),
            Literal::String(s) => LiteralModel::String(s@),
            Literal::Bool(b) => LiteralModel::Bool(*b),
            Literal::Nil => LiteralModel::Nil,
        }
    }
}

impl Clone for Literal {
    /// Cloning keeps the payload exactly.
    fn clone(&self) -> (r: Self)
        ensures
            r == *self,
    {
        match self {
            Literal::Number(n) => Literal::Number(*n),
            Literal::String(s) => Literal::String(s.clone()),
            Literal::Bool(b) => Literal::Bool(*b),
            Literal::Nil => Literal::Nil,
        }
    }
}

/// The minimal lexical unit: a category, the source text it covers, an
/// optional literal payload, and the source line it ends on.
#[derive(Debug)]
pub struct Token {
    pub token_type: TokenType,
    pub lexeme: String,
    pub literal: Option<Literal>,
    pub line: usize,
}

/// Mathematical model of a token, with the lexeme as a character sequence.
pub struct TokenModel {
    pub token_type: TokenType,
    pub lexeme: Seq<char>,
    pub literal: Option<LiteralModel>,
    pub line: int,
}

impl View for Token {
    type V = TokenModel;

    open spec fn view(&self) -> TokenModel {
        TokenModel {
            token_type: self.token_type,
            lexeme: self.lexeme@,
            literal: match self.literal {
                Option::Some(l) => Option::Some(l@),
                Option::None => Option::None,
            },
            line: self.line as int,
        }
    }
}

impl Clone for Token {
    /// Cloning keeps every field exactly.
    fn clone(&self) -> (r: Self)
        ensures
            r == *self,
    {
        Token {
            token_type: self.token_type,
            lexeme: self.lexeme.clone(),
            literal: match &self.literal {
                Option::Some(l) => Option::Some(l.clone()),
                Option::None => Option::None,
            },
            line: self.line,
        }
    }
}

impl Token {
    /// Builds the token record from its four parts.
    pub fn new(token_type: TokenType, lexeme: String, literal: Option<Literal>, line: usize) -> (t:
        Token)
        ensures
            t@ == (TokenModel {
                token_type,
                lexeme: lexeme@,
                literal: match literal {
                    Option::Some(l) => Option::Some(l@),
                    Option::None => Option::None::<LiteralModel>,
                },
                line: line as int,
            }),
    {
        Token { token_type, lexeme, literal, line }
    }
}

/// The model of a whole token sequence.
pub open spec fn tokens_model(tokens: Seq<Token>) -> Seq<TokenModel> {
    tokens.map_values(|t: Token| t@)
}

} // verus!
