//! The parser: recursive descent over the token sequence with a fixed
//! precedence ladder, producing one expression tree or a parse failure.
//!
//! Grammar, lowest to highest binding power:
//! ```text
//! expression -> equality
//! equality   -> comparison ( ( "!=" | "==" ) comparison )*
//! comparison -> term ( ( ">" | ">=" | "<" | "<=" ) term )*
//! term       -> factor ( ( "-" | "+" ) factor )*
//! factor     -> unary ( ( "/" | "*" ) unary )*
//! unary      -> ( "!" | "-" ) unary | primary
//! primary    -> NUMBER | STRING | "true" | "false" | "nil"
//!            | "(" expression ")"
//! ```
//! Every binary level is left-associative; unary is right-associative.
use vstd::prelude::*;
use vstd::string::*;

use crate::expr::{Binary, Expr, ExprModel, Grouping, Literal, LiteralValue, Unary};
use crate::token::{tokens_model, Token, TokenModel, TokenType};

verus! {

/// A parse failure: a syntax problem, carrying the token actually found and
/// a message describing what was expected.
#[derive(Debug)]
pub struct ParseError {
    pub message: String,
    pub token: Token,
}

/// Mathematical model of a parse failure.
pub struct ParseErrorModel {
    pub message: Seq<char>,
    pub token: TokenModel,
}

impl View for ParseError {
    type V = ParseErrorModel;

    open spec fn view(&self) -> ParseErrorModel {
        ParseErrorModel { message: self.message@, token: self.token@ }
    }
}

/// Whether a token type is one of the operators of the given binary
/// precedence level: equality, then comparison, then term, then factor.
pub open spec fn level_op(level: int, tt: TokenType) -> bool {
    if level == 0 {
        tt == TokenType::BangEqual || tt == TokenType::EqualEqual
    } else if level == 1 {
        tt == TokenType::Greater || tt == TokenType::GreaterEqual || tt == TokenType::Less || tt
            == TokenType::LessEqual
    } else if level == 2 {
        tt == TokenType::Minus || tt == TokenType::Plus
    } else {
        tt == TokenType::Slash || tt == TokenType::Star
    }
}

/// The outcome of guard branches that no run reaches: every grammar rule
/// consumes at least one token on success and ends within the sequence, as
/// `lemma_sp_expression_progress` and its companions prove, so a parsed
/// operand always ends past where it began.
pub open spec fn no_parse() -> Result<(ExprModel, int), ParseErrorModel> {
    Err(ParseErrorModel { message: Seq::empty(), token: arbitrary() })
}

/// What parsing one expression at position `i` yields: the tree and the
/// position just past it, or the first parse failure.
pub open spec fn sp_expression(toks: Seq<TokenModel>, i: int) -> Result<
    (ExprModel, int),
    ParseErrorModel,
>
    decreases toks.len() - i, 10int when 0 <= i <= toks.len()
{
    sp_binary(toks, i, 0)
}

/// One binary precedence level: parse an operand at the next-higher level,
/// then fold further operands left-associatively.
pub open spec fn sp_binary(toks: Seq<TokenModel>, i: int, level: int) -> Result<
    (ExprModel, int),
    ParseErrorModel,
>
    decreases toks.len() - i, 9 - 2 * level when 0 <= i <= toks.len() && 0 <= level <= 3
{
    let operand = if level < 3 {
        sp_binary(toks, i, level + 1)
    } else {
        sp_unary(toks, i)
    };
    match operand {
        Ok((e, j)) => if i < j <= toks.len() {
            sp_binary_rest(toks, e, j, level)
        } else {
            no_parse()
        },
        Err(err) => Err(err),
    }
}

/// The left-associative fold at one binary level: while the token at `j` is
/// one of the level's operators, parse the next operand and fold the
/// accumulated expression as the left child of a new binary node.
pub open spec fn sp_binary_rest(
    toks: Seq<TokenModel>,
    left: ExprModel,
    j: int,
    level: int,
) -> Result<(ExprModel, int), ParseErrorModel>
    decreases toks.len() - j, 8 - 2 * level when 0 <= j <= toks.len() && 0 <= level <= 3
{
    if j < toks.len() && level_op(level, toks[j].token_type) {
        let operand = if level < 3 {
            sp_binary(toks, j + 1, level + 1)
        } else {
            sp_unary(toks, j + 1)
        };
        match operand {
            Ok((right, k)) => if j < k <= toks.len() {
                sp_binary_rest(
                    toks,
                    ExprModel::Binary {
                        left: Box::new(left),
                        operator: toks[j],
                        right: Box::new(right),
                    },
                    k,
                    level,
                )
            } else {
                no_parse()
            },
            Err(err) => Err(err),
        }
    } else {
        Ok((left, j))
    }
}

/// A unary expression: a prefix `!` or `-` applied right-associatively, or
/// a primary expression.
pub open spec fn sp_unary(toks: Seq<TokenModel>, i: int) -> Result<
    (ExprModel, int),
    ParseErrorModel,
>
    decreases toks.len() - i, 2int when 0 <= i <= toks.len()
{
    if i < toks.len() && (toks[i].token_type == TokenType::Bang || toks[i].token_type
        == TokenType::Minus) {
        match sp_unary(toks, i + 1) {
            Ok((right, j)) => Ok(
                (ExprModel::Unary { operator: toks[i], right: Box::new(right) }, j),
            ),
            Err(err) => Err(err),
        }
    } else {
        sp_primary(toks, i)
    }
}

/// A primary expression: a literal keyword, a number or string literal, or
/// a parenthesized sub-expression. A literal token whose payload is missing
/// is consumed and parsing goes on at the next token.
pub open spec fn sp_primary(toks: Seq<TokenModel>, i: int) -> Result<
    (ExprModel, int),
    ParseErrorModel,
>
    decreases toks.len() - i, 1int when 0 <= i <= toks.len()
{
    if i < toks.len() && toks[i].token_type == TokenType::False {
        Ok((ExprModel::Literal { value: crate::expr::LiteralValueModel::Bool(false) }, i + 1))
    } else if i < toks.len() && toks[i].token_type == TokenType::True {
        Ok((ExprModel::Literal { value: crate::expr::LiteralValueModel::Bool(true) }, i + 1))
    } else if i < toks.len() && toks[i].token_type == TokenType::Nil {
        Ok((ExprModel::Literal { value: crate::expr::LiteralValueModel::Nil }, i + 1))
    } else if i < toks.len() && (toks[i].token_type == TokenType::Number || toks[i].token_type
        == TokenType::String) {
        match toks[i].literal {
            Some(crate::token::LiteralModel::Number(n)) => Ok(
                (
                    ExprModel::Literal { value: crate::expr::LiteralValueModel::Number(n) },
                    i + 1,
                ),
            ),
            Some(crate::token::LiteralModel::String(s)) => Ok(
                (
                    ExprModel::Literal { value: crate::expr::LiteralValueModel::String(s) },
                    i + 1,
                ),
            ),
            Some(_) => Err(
                ParseErrorModel { message: "Unexpected literal type"@, token: toks[i] },
            ),
            None => sp_paren(toks, i + 1),
        }
    } else {
        sp_paren(toks, i)
    }
}

/// The tail of the primary rule: a parenthesized sub-expression with its
/// mandatory closing parenthesis, or the failure every other token meets.
pub open spec fn sp_paren(toks: Seq<TokenModel>, i: int) -> Result<
    (ExprModel, int),
    ParseErrorModel,
>
    decreases toks.len() - i, 0int when 0 <= i <= toks.len()
{
    if i < toks.len() && toks[i].token_type == TokenType::LeftParen {
        match sp_expression(toks, i + 1) {
            Ok((inner, k)) => if k < toks.len() && toks[k].token_type == TokenType::RightParen {
                Ok((ExprModel::Grouping { expression: Box::new(inner) }, k + 1))
            } else {
                Err(
                    ParseErrorModel {
                        message: "Expect ')' after expression."@,
                        token: toks[k],
                    },
                )
            },
            Err(err) => Err(err),
        }
    } else {
        Err(ParseErrorModel { message: "Expect expression."@, token: toks[i] })
    }
}

/// Law: every successful parse of an expression consumes at least one
/// token and ends within the sequence, so the guard branches of the rules
/// are never reached.
pub proof fn lemma_sp_expression_progress(toks: Seq<TokenModel>, i: int)
    requires
        0 <= i <= toks.len(),
    ensures
        sp_expression(toks, i) matches Ok((e, j)) ==> i < j <= toks.len(),
    decreases toks.len() - i, 10int,
{
    lemma_sp_binary_progress(toks, i, 0);
}

/// Every successful parse at a binary level consumes at least one token.
pub proof fn lemma_sp_binary_progress(toks: Seq<TokenModel>, i: int, level: int)
    requires
        0 <= i <= toks.len(),
        0 <= level <= 3,
    ensures
        sp_binary(toks, i, level) matches Ok((e, j)) ==> i < j <= toks.len(),
    decreases toks.len() - i, 9 - 2 * level,
{
    if level < 3 {
        lemma_sp_binary_progress(toks, i, level + 1);
    } else {
        lemma_sp_unary_progress(toks, i);
    }
    let operand = if level < 3 {
        sp_binary(toks, i, level + 1)
    } else {
        sp_unary(toks, i)
    };
    match operand {
        Ok((e, j)) => {
            lemma_sp_binary_rest_progress(toks, e, j, level);
        },
        Err(err) => {},
    }
}

/// The left-associative fold never moves the position backwards.
pub proof fn lemma_sp_binary_rest_progress(
    toks: Seq<TokenModel>,
    left: ExprModel,
    j: int,
    level: int,
)
    requires
        0 <= j <= toks.len(),
        0 <= level <= 3,
    ensures
        sp_binary_rest(toks, left, j, level) matches Ok((e, k)) ==> j <= k <= toks.len(),
    decreases toks.len() - j, 8 - 2 * level,
{
    if j < toks.len() && level_op(level, toks[j].token_type) {
        if level < 3 {
            lemma_sp_binary_progress(toks, j + 1, level + 1);
        } else {
            lemma_sp_unary_progress(toks, j + 1);
        }
        let operand = if level < 3 {
            sp_binary(toks, j + 1, level + 1)
        } else {
            sp_unary(toks, j + 1)
        };
        match operand {
            Ok((right, k)) => {
                lemma_sp_binary_rest_progress(
                    toks,
                    ExprModel::Binary {
                        left: Box::new(left),
                        operator: toks[j],
                        right: Box::new(right),
                    },
                    k,
                    level,
                );
            },
            Err(err) => {},
        }
    }
}

/// Every successful unary parse consumes at least one token.
pub proof fn lemma_sp_unary_progress(toks: Seq<TokenModel>, i: int)
    requires
        0 <= i <= toks.len(),
    ensures
        sp_unary(toks, i) matches Ok((e, j)) ==> i < j <= toks.len(),
    decreases toks.len() - i, 2int,
{
    if i < toks.len() && (toks[i].token_type == TokenType::Bang || toks[i].token_type
        == TokenType::Minus) {
        lemma_sp_unary_progress(toks, i + 1);
    } else {
        lemma_sp_primary_progress(toks, i);
    }
}

/// Every successful primary parse consumes at least one token.
pub proof fn lemma_sp_primary_progress(toks: Seq<TokenModel>, i: int)
    requires
        0 <= i <= toks.len(),
    ensures
        sp_primary(toks, i) matches Ok((e, j)) ==> i < j <= toks.len(),
    decreases toks.len() - i, 1int,
{
    lemma_sp_paren_progress(toks, i);
    if i + 1 <= toks.len() {
        lemma_sp_paren_progress(toks, i + 1);
    }
}

/// Every successful parenthesized parse consumes at least one token.
pub proof fn lemma_sp_paren_progress(toks: Seq<TokenModel>, i: int)
    requires
        0 <= i <= toks.len(),
    ensures
        sp_paren(toks, i) matches Ok((e, j)) ==> i < j <= toks.len(),
    decreases toks.len() - i, 0int,
{
    if i < toks.len() && toks[i].token_type == TokenType::LeftParen {
        lemma_sp_expression_progress(toks, i + 1);
    }
}

/// The position where error recovery stops, scanning from `j` (the
/// position after the first discarded token): just past a semicolon, at a
/// token that starts a new statement, or at the end of input.
pub open spec fn sp_sync(toks: Seq<TokenModel>, j: int) -> int
    decreases toks.len() - j when 0 <= j <= toks.len()
{
    if j >= toks.len() {
        j
    } else if toks[j].token_type == TokenType::Eof {
        j
    } else if toks[j - 1].token_type == TokenType::Semicolon {
        j
    } else if is_sync_keyword(toks[j].token_type) {
        j
    } else {
        sp_sync(toks, j + 1)
    }
}

/// Whether a token type starts a new statement, for error recovery.
pub open spec fn is_sync_keyword(tt: TokenType) -> bool {
    tt == TokenType::Class || tt == TokenType::Fun || tt == TokenType::Var || tt == TokenType::For
        || tt == TokenType::If || tt == TokenType::While || tt == TokenType::Print || tt
        == TokenType::Return
}

/// Whether an executable parse outcome models a specification outcome
/// ending at the given position.
pub open spec fn rule_models(
    r: Result<Expr, ParseError>,
    s: Result<(ExprModel, int), ParseErrorModel>,
    end: int,
) -> bool {
    match (r, s) {
        (Ok(e), Ok((m, j))) => e@ == m && end == j,
        (Err(pe), Err(me)) => pe@ == me,
        _ => false,
    }
}

/// Recursive descent parser over a token sequence, reading through a
/// cursor that only ever advances.
pub struct Parser {
    pub tokens: Vec<Token>,
    pub current: usize,
}

impl Parser {
    /// The model of this parser's token sequence.
    pub open spec fn toks(self) -> Seq<TokenModel> {
        tokens_model(self.tokens@)
    }

    /// Validity: the cursor is on a token, and the sequence ends with an
    /// end-of-input token, which every scan provides.
    pub open spec fn wf(self) -> bool {
        &&& self.current < self.tokens@.len()
        &&& self.tokens@.len() >= 1
        &&& self.tokens@[self.tokens@.len() - 1].token_type == TokenType::Eof
    }

    /// Builds a parser at the start of the given token sequence.
    pub fn new(tokens: Vec<Token>) -> (r: Self)
        ensures
            r.tokens == tokens,
            r.current == 0,
    {
        Self { tokens, current: 0 }
    }

    /// The token at the cursor.
    pub fn peek(&self) -> (t: &Token)
        requires
            self.current < self.tokens@.len(),
        ensures
            *t == self.tokens@[self.current as int],
    {
        &self.tokens[self.current]
    }

    /// The token just before the cursor.
    pub fn previous(&self) -> (t: &Token)
        requires
            1 <= self.current <= self.tokens@.len(),
        ensures
            *t == self.tokens@[self.current - 1],
    {
        &self.tokens[self.current - 1]
    }

    /// Whether the cursor has reached the end-of-input token.
    pub fn is_at_end(&self) -> (r: bool)
        requires
            self.current < self.tokens@.len(),
        ensures
            r == (self.toks()[self.current as int].token_type == TokenType::Eof),
    {
        self.peek().token_type == TokenType::Eof
    }

    /// Whether the token at the cursor has the given type, without
    /// consuming it; never true at the end of input.
    pub fn check(&self, token_type: TokenType) -> (r: bool)
        requires
            self.current < self.tokens@.len(),
        ensures
            ({
                let tt = self.toks()[self.current as int].token_type;
                r == (tt != TokenType::Eof && tt == token_type)
            }),
    {
        !self.is_at_end() && self.peek().token_type == token_type
    }

    /// Consumes the token at the cursor, unless it is the end-of-input
    /// token, and returns the token before the new cursor position.
    pub fn advance(&mut self) -> (t: &Token)
        requires
            old(self).wf(),
            old(self).current >= 1 || old(self).toks()[old(self).current as int].token_type
                != TokenType::Eof,
        ensures
            final(self).wf(),
            final(self).tokens == old(self).tokens,
            final(self).current == if old(self).toks()[old(self).current as int].token_type
                == TokenType::Eof {
                old(self).current as int
            } else {
                old(self).current + 1
            },
            *t == final(self).tokens@[final(self).current - 1],
    {
        // The length is a usize and bounds the cursor, so the increment
        // cannot overflow.
        let n: usize = self.tokens.len();
        if !self.is_at_end() {
            proof {
                assert(self.toks()[self.tokens@.len() - 1].token_type == TokenType::Eof);
            }
            self.current = self.current + 1;
        }
        &self.tokens[self.current - 1]
    }

    /// Consumes the token at the cursor when its type is one of the given
    /// ones; reports whether it did.
    pub fn match_tokens(&mut self, types: &[TokenType]) -> (r: bool)
        requires
            old(self).wf(),
        ensures
            final(self).wf(),
            final(self).tokens == old(self).tokens,
            r == (old(self).toks()[old(self).current as int].token_type != TokenType::Eof
                && types@.contains(old(self).toks()[old(self).current as int].token_type)),
            final(self).current == if r {
                old(self).current + 1
            } else {
                old(self).current as int
            },
    {
        let ghost tt = self.toks()[self.current as int].token_type;
        let n: usize = types.len();
        let mut k: usize = 0;
        while k < n
            invariant
                *self == *old(self),
                old(self).wf(),
                0 <= k <= n,
                n == types@.len(),
                forall|m: int| 0 <= m < k ==> types@[m] != tt || tt == TokenType::Eof,
                tt == self.toks()[self.current as int].token_type,
            decreases n - k,
        {
            if self.check(types[k]) {
                self.advance();
                proof {
                    assert(types@.contains(tt));
                }
                return true;
            }
            k = k + 1;
        }
        proof {
            if tt != TokenType::Eof && types@.contains(tt) {
                let m = choose|m: int| 0 <= m < types@.len() && types@[m] == tt;
                assert(types@[m] == tt);
                assert(false);
            }
        }
        false
    }

    /// Builds a parse failure at the given token.
    fn error(&self, token: &Token, message: &str) -> (r: ParseError)
        ensures
            r@ == (ParseErrorModel { message: message@, token: token@ }),
    {
        ParseError { message: message.to_owned(), token: token.clone() }
    }

    /// Consumes the token at the cursor when it has the required type;
    /// otherwise reports a parse failure naming the token actually found.
    fn consume(&mut self, token_type: TokenType, message: &str) -> (r: Result<(), ParseError>)
        requires
            old(self).wf(),
            token_type != TokenType::Eof,
        ensures
            final(self).wf(),
            final(self).tokens == old(self).tokens,
            ({
                let here = old(self).toks()[old(self).current as int];
                if here.token_type == token_type {
                    r is Ok && final(self).current == old(self).current + 1
                } else {
                    r matches Err(e) && e@ == (ParseErrorModel { message: message@, token: here })
                        && final(self).current == old(self).current
                }
            }),
    {
        if self.check(token_type) {
            self.advance();
            Ok(())
        } else {
            Err(self.error(self.peek(), message))
        }
    }

    /// Parses one expression from the cursor: the single entry point, which
    /// always returns a success-or-failure result.
    pub fn parse(&mut self) -> (r: Result<Expr, ParseError>)
        requires
            old(self).wf(),
        ensures
            final(self).wf(),
            final(self).tokens == old(self).tokens,
            rule_models(r, sp_expression(old(self).toks(), old(self).current as int), final(self).current as int),
            r is Ok ==> final(self).current > old(self).current,
    {
        self.expression()
    }

    /// The lowest-precedence rule: an equality expression.
    pub fn expression(&mut self) -> (r: Result<Expr, ParseError>)
        requires
            old(self).wf(),
        ensures
            final(self).wf(),
            final(self).tokens == old(self).tokens,
            rule_models(r, sp_expression(old(self).toks(), old(self).current as int), final(self).current as int),
            r is Ok ==> final(self).current > old(self).current,
        decreases old(self).tokens@.len() - old(self).current, 10int,
    {
        self.binary_level(0)
    }

    /// Equality: `comparison ( ( "!=" | "==" ) comparison )*`.
    pub fn equality(&mut self) -> (r: Result<Expr, ParseError>)
        requires
            old(self).wf(),
        ensures
            final(self).wf(),
            final(self).tokens == old(self).tokens,
            rule_models(r, sp_binary(old(self).toks(), old(self).current as int, 0), final(self).current as int),
            r is Ok ==> final(self).current > old(self).current,
        decreases old(self).tokens@.len() - old(self).current, 9int,
    {
        self.binary_level(0)
    }

    /// Comparison: `term ( ( ">" | ">=" | "<" | "<=" ) term )*`.
    pub fn comparison(&mut self) -> (r: Result<Expr, ParseError>)
        requires
            old(self).wf(),
        ensures
            final(self).wf(),
            final(self).tokens == old(self).tokens,
            rule_models(r, sp_binary(old(self).toks(), old(self).current as int, 1), final(self).current as int),
            r is Ok ==> final(self).current > old(self).current,
        decreases old(self).tokens@.len() - old(self).current, 9int,
    {
        self.binary_level(1)
    }

    /// Term: `factor ( ( "-" | "+" ) factor )*`.
    pub fn term(&mut self) -> (r: Result<Expr, ParseError>)
        requires
            old(self).wf(),
        ensures
            final(self).wf(),
            final(self).tokens == old(self).tokens,
            rule_models(r, sp_binary(old(self).toks(), old(self).current as int, 2), final(self).current as int),
            r is Ok ==> final(self).current > old(self).current,
        decreases old(self).tokens@.len() - old(self).current, 9int,
    {
        self.binary_level(2)
    }

    /// Factor: `unary ( ( "/" | "*" ) unary )*`.
    pub fn factor(&mut self) -> (r: Result<Expr, ParseError>)
        requires
            old(self).wf(),
        ensures
            final(self).wf(),
            final(self).tokens == old(self).tokens,
            rule_models(r, sp_binary(old(self).toks(), old(self).current as int, 3), final(self).current as int),
            r is Ok ==> final(self).current > old(self).current,
        decreases old(self).tokens@.len() - old(self).current, 9int,
    {
        self.binary_level(3)
    }

    /// Whether the token at the cursor is an operator of the given level.
    fn check_level(&self, level: u8) -> (r: bool)
        requires
            self.current < self.tokens@.len(),
            level <= 3,
        ensures
            r == (self.toks()[self.current as int].token_type != TokenType::Eof && level_op(
                level as int,
                self.toks()[self.current as int].token_type,
            )),
    {
        if level == 0 {
            self.check(TokenType::BangEqual) || self.check(TokenType::EqualEqual)
        } else if level == 1 {
            self.check(TokenType::Greater) || self.check(TokenType::GreaterEqual) || self.check(
                TokenType::Less,
            ) || self.check(TokenType::LessEqual)
        } else if level == 2 {
            self.check(TokenType::Minus) || self.check(TokenType::Plus)
        } else {
            self.check(TokenType::Slash) || self.check(TokenType::Star)
        }
    }

    /// One binary precedence level: parse an operand at the next-higher
    /// level, then fold further operands left-associatively.
    fn binary_level(&mut self, level: u8) -> (r: Result<Expr, ParseError>)
        requires
            old(self).wf(),
            level <= 3,
        ensures
            final(self).wf(),
            final(self).tokens == old(self).tokens,
            rule_models(r, sp_binary(old(self).toks(), old(self).current as int, level as int),
                final(self).current as int),
            r is Ok ==> final(self).current > old(self).current,
        decreases old(self).tokens@.len() - old(self).current, 8int - level,
    {
        let ghost toks = old(self).toks();
        let ghost i0 = old(self).current as int;
        let first = if level < 3 {
            self.binary_level(level + 1)
        } else {
            self.unary()
        };
        let mut expr = match first {
            Ok(e) => e,
            Err(err) => {
                return Err(err);
            },
        };
        while self.check_level(level)
            invariant
                self.wf(),
                self.tokens == old(self).tokens,
                toks == old(self).toks(),
                level <= 3,
                i0 == old(self).current as int,
                i0 < self.current as int <= toks.len(),
                sp_binary(toks, i0, level as int) == sp_binary_rest(
                    toks,
                    expr@,
                    self.current as int,
                    level as int,
                ),
            decreases toks.len() - self.current,
        {
            let ghost j = self.current as int;
            let operator = self.peek().clone();
            self.advance();
            let next = if level < 3 {
                self.binary_level(level + 1)
            } else {
                self.unary()
            };
            let right = match next {
                Ok(e) => e,
                Err(err) => {
                    return Err(err);
                },
            };
            expr = Expr::Binary(
                Binary { left: Box::new(expr), operator, right: Box::new(right) },
            );
        }
        Ok(expr)
    }

    /// Unary: a prefix `!` or `-` applied right-associatively, or a
    /// primary expression.
    pub fn unary(&mut self) -> (r: Result<Expr, ParseError>)
        requires
            old(self).wf(),
        ensures
            final(self).wf(),
            final(self).tokens == old(self).tokens,
            rule_models(r, sp_unary(old(self).toks(), old(self).current as int), final(self).current as int),
            r is Ok ==> final(self).current > old(self).current,
        decreases old(self).tokens@.len() - old(self).current, 2int,
    {
        if self.check(TokenType::Bang) || self.check(TokenType::Minus) {
            let operator = self.peek().clone();
            self.advance();
            let right = match self.unary() {
                Ok(e) => e,
                Err(err) => {
                    return Err(err);
                },
            };
            Ok(Expr::Unary(Unary { operator, right: Box::new(right) }))
        } else {
            self.primary()
        }
    }

    /// Primary: literal keywords, number and string literals, and
    /// parenthesized sub-expressions; any other token is a syntax error.
    pub fn primary(&mut self) -> (r: Result<Expr, ParseError>)
        requires
            old(self).wf(),
        ensures
            final(self).wf(),
            final(self).tokens == old(self).tokens,
            rule_models(r, sp_primary(old(self).toks(), old(self).current as int), final(self).current as int),
            r is Ok ==> final(self).current > old(self).current,
        decreases old(self).tokens@.len() - old(self).current, 1int,
    {
        if self.check(TokenType::False) {
            self.advance();
            return Ok(Expr::Literal(Literal { value: LiteralValue::Bool(false) }));
        }
        if self.check(TokenType::True) {
            self.advance();
            return Ok(Expr::Literal(Literal { value: LiteralValue::Bool(true) }));
        }
        if self.check(TokenType::Nil) {
            self.advance();
            return Ok(Expr::Literal(Literal { value: LiteralValue::Nil }));
        }
        if self.check(TokenType::Number) || self.check(TokenType::String) {
            let token = self.peek().clone();
            self.advance();
            match token.literal {
                Some(crate::token::Literal::Number(n)) => {
                    return Ok(Expr::Literal(Literal { value: LiteralValue::Number(n) }));
                },
                Some(crate::token::Literal::String(s)) => {
                    return Ok(Expr::Literal(Literal { value: LiteralValue::String(s) }));
                },
                Some(_) => {
                    return Err(self.error(&token, "Unexpected literal type"));
                },
                None => {},
            }
        }
        self.paren_primary()
    }

    /// The tail of the primary rule: a parenthesized sub-expression with
    /// its mandatory closing parenthesis, or the failure every other token
    /// meets.
    fn paren_primary(&mut self) -> (r: Result<Expr, ParseError>)
        requires
            old(self).wf(),
        ensures
            final(self).wf(),
            final(self).tokens == old(self).tokens,
            rule_models(r, sp_paren(old(self).toks(), old(self).current as int), final(self).current as int),
            r is Ok ==> final(self).current > old(self).current,
        decreases old(self).tokens@.len() - old(self).current, 0int,
    {
        if self.check(TokenType::LeftParen) {
            self.advance();
            let inner = match self.expression() {
                Ok(e) => e,
                Err(err) => {
                    return Err(err);
                },
            };
            match self.consume(TokenType::RightParen, "Expect ')' after expression.") {
                Ok(()) => Ok(Expr::Grouping(Grouping { expression: Box::new(inner) })),
                Err(err) => Err(err),
            }
        } else {
            Err(self.error(self.peek(), "Expect expression."))
        }
    }

    /// Error recovery: discards tokens until a plausible statement
    /// boundary, so that one bad expression does not poison what follows.
    pub fn synchronize(&mut self)
        requires
            old(self).wf(),
            old(self).current >= 1 || old(self).toks()[old(self).current as int].token_type
                != TokenType::Eof,
        ensures
            final(self).wf(),
            final(self).tokens == old(self).tokens,
            ({
                let start = if old(self).toks()[old(self).current as int].token_type
                    == TokenType::Eof {
                    old(self).current as int
                } else {
                    old(self).current + 1
                };
                final(self).current == sp_sync(old(self).toks(), start)
            }),
    {
        let ghost toks = old(self).toks();
        self.advance();
        while !self.is_at_end()
            invariant
                self.wf(),
                self.tokens == old(self).tokens,
                toks == old(self).toks(),
                1 <= self.current,
                sp_sync(toks, old(self).current as int + if toks[old(self).current as int].token_type == TokenType::Eof { 0int } else { 1int })
                    == sp_sync(toks, self.current as int),
            decreases toks.len() - self.current,
        {
            if self.previous().token_type == TokenType::Semicolon {
                return ;
            }
            match self.peek().token_type {
                TokenType::Class => {
                    return ;
                },
                TokenType::Fun => {
                    return ;
                },
                TokenType::Var => {
                    return ;
                },
                TokenType::For => {
                    return ;
                },
                TokenType::If => {
                    return ;
                },
                TokenType::While => {
                    return ;
                },
                TokenType::Print => {
                    return ;
                },
                TokenType::Return => {
                    return ;
                },
                _ => {},
            }
            self.advance();
        }
    }
}

} // verus!
