//! The runtime failure record: a semantic problem found while evaluating,
//! carrying the operator token for line and lexeme context.
use vstd::prelude::*;
use vstd::string::*;

use crate::number::{uint_string, uint_text};
use crate::token::{Token, TokenModel};

verus! {

/// A runtime failure: the offending token and a human-readable message.
#[derive(Debug)]
pub struct RuntimeError {
    pub token: Token,
    pub message: String,
}

/// Mathematical model of a runtime failure.
pub struct ErrorModel {
    pub token: TokenModel,
    pub message: Seq<char>,
}

impl View for RuntimeError {
    type V = ErrorModel;

    open spec fn view(&self) -> ErrorModel {
        ErrorModel { token: self.token@, message: self.message@ }
    }
}

/// The stable user-facing diagnostic line for a runtime failure.
pub open spec fn error_text(e: ErrorModel) -> Seq<char> {
    "[line "@ + uint_text(e.token.line) + "] Runtime Error at '"@ + e.token.lexeme + "': "@
        + e.message
}

impl Clone for RuntimeError {
    /// Cloning keeps the token and the message exactly.
    fn clone(&self) -> (r: Self)
        ensures
            r == *self,
    {
        RuntimeError { token: self.token.clone(), message: self.message.clone() }
    }
}

impl RuntimeError {
    /// Builds a runtime failure from the offending token and a message.
    pub fn new(token: &Token, message: &str) -> (r: Self)
        ensures
            r@ == (ErrorModel { token: token@, message: message@ }),
    {
        Self { token: token.clone(), message: message.to_owned() }
    }

    /// The diagnostic line `[line N] Runtime Error at 'lexeme': message`.
    pub fn format_error(&self) -> (r: String)
        ensures
            r@ == error_text(self@),
    {
        let mut s = String::new();
        s.append("[line ");
        let line_text = uint_string(self.token.line as u128);
        s.append(line_text.as_str());
        s.append("] Runtime Error at '");
        s.append(self.token.lexeme.as_str());
        s.append("': ");
        s.append(self.message.as_str());
        proof {
            assert(s@ =~= error_text(self@));
        }
        s
    }
}

} // verus!
