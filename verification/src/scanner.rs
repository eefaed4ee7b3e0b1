//! The scanner: a single left-to-right pass that converts source text into
//! an ordered token sequence, tracking the current line and ending with
//! exactly one end-of-input token.
use vstd::prelude::*;
use vstd::string::*;

use crate::chars::{chars_to_string, str_to_chars};
use crate::number::{pow10, uint_string, Number, MAX_SCALED, SCALE, SCALE_MAG};
use crate::token::{tokens_model, Literal, LiteralModel, Token, TokenModel, TokenType};

verus! {

/// Whether a character is a decimal digit.
pub open spec fn is_digit(c: char) -> bool {
    '0' <= c && c <= '9'
}

/// Whether a character can start an identifier: a letter or an underscore.
pub open spec fn is_alpha(c: char) -> bool {
    ('a' <= c && c <= 'z') || ('A' <= c && c <= 'Z') || c == '_'
}

/// Whether a character can continue an identifier.
pub open spec fn is_alpha_numeric(c: char) -> bool {
    is_alpha(c) || is_digit(c)
}

/// The fixed keyword table: an exact, whole-token match on one of the
/// reserved words yields its token type; any other spelling is an
/// identifier.
pub open spec fn keyword_type(s: Seq<char>) -> Option<TokenType> {
    if s == "and"@ {
        Some(TokenType::And)
    } else if s == "class"@ {
        Some(TokenType::Class)
    } else if s == "else"@ {
        Some(TokenType::Else)
    } else if s == "false"@ {
        Some(TokenType::False)
    } else if s == "for"@ {
        Some(TokenType::For)
    } else if s == "fun"@ {
        Some(TokenType::Fun)
    } else if s == "if"@ {
        Some(TokenType::If)
    } else if s == "nil"@ {
        Some(TokenType::Nil)
    } else if s == "or"@ {
        Some(TokenType::Or)
    } else if s == "print"@ {
        Some(TokenType::Print)
    } else if s == "return"@ {
        Some(TokenType::Return)
    } else if s == "super"@ {
        Some(TokenType::Super)
    } else if s == "this"@ {
        Some(TokenType::This)
    } else if s == "true"@ {
        Some(TokenType::True)
    } else if s == "var"@ {
        Some(TokenType::Var)
    } else if s == "while"@ {
        Some(TokenType::While)
    } else {
        None
    }
}

/// The first position at or after `i` that does not hold a digit.
pub open spec fn digits_end(src: Seq<char>, i: int) -> int
    decreases src.len() - i when 0 <= i <= src.len()
{
    if i < src.len() && is_digit(src[i]) {
        digits_end(src, i + 1)
    } else {
        i
    }
}

/// The first position at or after `i` that cannot continue an identifier.
pub open spec fn ident_end(src: Seq<char>, i: int) -> int
    decreases src.len() - i when 0 <= i <= src.len()
{
    if i < src.len() && is_alpha_numeric(src[i]) {
        ident_end(src, i + 1)
    } else {
        i
    }
}

/// The first position at or after `i` holding a newline, or the end of the
/// source: where a line comment stops.
pub open spec fn comment_end(src: Seq<char>, i: int) -> int
    decreases src.len() - i when 0 <= i <= src.len()
{
    if i < src.len() && src[i] != '\n' {
        comment_end(src, i + 1)
    } else {
        i
    }
}

/// The first position at or after `i` holding a closing quote, or the end
/// of the source.
pub open spec fn quote_end(src: Seq<char>, i: int) -> int
    decreases src.len() - i when 0 <= i <= src.len()
{
    if i < src.len() && src[i] != '"' {
        quote_end(src, i + 1)
    } else {
        i
    }
}

/// How many newline characters `src` holds in the range `[i, j)`.
pub open spec fn newlines_in(src: Seq<char>, i: int, j: int) -> int
    decreases j - i when i <= j
{
    if i < j {
        newlines_in(src, i, j - 1) + if src[j - 1] == '\n' {
            1int
        } else {
            0int
        }
    } else {
        0
    }
}

/// The numeric value of a run of digit characters, most significant first.
pub open spec fn digits_value(s: Seq<char>) -> int
    decreases s.len(),
{
    if s.len() == 0 {
        0
    } else {
        digits_value(s.drop_last()) * 10 + (s.last() as u32 - 48)
    }
}

/// The scaled contribution of the fractional digits: only the first nine
/// count, shorter runs are padded with zeros.
pub open spec fn frac_value(s: Seq<char>) -> int {
    if s.len() >= 9 {
        digits_value(s.subrange(0, 9))
    } else {
        digits_value(s) * pow10((9 - s.len()) as nat)
    }
}

/// The scaled payload of a number literal with the given whole and
/// fractional digit runs, clamped to the largest representable value.
pub open spec fn number_payload(intpart: Seq<char>, fracpart: Seq<char>) -> int {
    let exact = digits_value(intpart) * (SCALE as int) + frac_value(fracpart);
    if exact <= MAX_SCALED as int {
        exact
    } else {
        MAX_SCALED as int
    }
}

/// The end of a digit run stays within the source; everything before it is
/// a digit and the character at it, if any, is not.
pub proof fn lemma_digits_end(src: Seq<char>, i: int)
    requires
        0 <= i <= src.len(),
    ensures
        i <= digits_end(src, i) <= src.len(),
        forall|j: int| i <= j < digits_end(src, i) ==> is_digit(src[j]),
        digits_end(src, i) < src.len() ==> !is_digit(src[digits_end(src, i)]),
    decreases src.len() - i,
{
    if i < src.len() && is_digit(src[i]) {
        lemma_digits_end(src, i + 1);
    }
}

/// The end of an identifier run stays within the source; everything before
/// it can continue an identifier and the character at it, if any, cannot.
pub proof fn lemma_ident_end(src: Seq<char>, i: int)
    requires
        0 <= i <= src.len(),
    ensures
        i <= ident_end(src, i) <= src.len(),
        forall|j: int| i <= j < ident_end(src, i) ==> is_alpha_numeric(src[j]),
        ident_end(src, i) < src.len() ==> !is_alpha_numeric(src[ident_end(src, i)]),
    decreases src.len() - i,
{
    if i < src.len() && is_alpha_numeric(src[i]) {
        lemma_ident_end(src, i + 1);
    }
}

/// The end of a line comment stays within the source.
pub proof fn lemma_comment_end(src: Seq<char>, i: int)
    requires
        0 <= i <= src.len(),
    ensures
        i <= comment_end(src, i) <= src.len(),
    decreases src.len() - i,
{
    if i < src.len() && src[i] != '\n' {
        lemma_comment_end(src, i + 1);
    }
}

/// The position of a closing quote stays within the source.
pub proof fn lemma_quote_end(src: Seq<char>, i: int)
    requires
        0 <= i <= src.len(),
    ensures
        i <= quote_end(src, i) <= src.len(),
    decreases src.len() - i,
{
    if i < src.len() && src[i] != '"' {
        lemma_quote_end(src, i + 1);
    }
}

/// The end-of-input token at the given line.
pub open spec fn eof_token(line: int) -> TokenModel {
    TokenModel {
        token_type: TokenType::Eof,
        lexeme: Seq::empty(),
        literal: None,
        line,
    }
}

/// A token with no literal payload covering `src[i..j]`.
pub open spec fn plain_token(t: TokenType, src: Seq<char>, i: int, j: int, line: int) -> TokenModel {
    TokenModel { token_type: t, lexeme: src.subrange(i, j), literal: None, line }
}

/// The token type of a single-character lexeme, for the characters that map
/// directly to one.
pub open spec fn single_char_type(c: char) -> Option<TokenType> {
    if c == '(' {
        Some(TokenType::LeftParen)
    } else if c == ')' {
        Some(TokenType::RightParen)
    } else if c == '{' {
        Some(TokenType::LeftBrace)
    } else if c == '}' {
        Some(TokenType::RightBrace)
    } else if c == ',' {
        Some(TokenType::Comma)
    } else if c == '.' {
        Some(TokenType::Dot)
    } else if c == '-' {
        Some(TokenType::Minus)
    } else if c == '+' {
        Some(TokenType::Plus)
    } else if c == ';' {
        Some(TokenType::Semicolon)
    } else if c == '*' {
        Some(TokenType::Star)
    } else {
        None
    }
}

/// The one- or two-character operator type for `!`, `=`, `<`, `>`: each
/// greedily takes a trailing `=` when one is present.
pub open spec fn operator_type(c: char, followed_by_equal: bool) -> TokenType {
    if c == '!' {
        if followed_by_equal {
            TokenType::BangEqual
        } else {
            TokenType::Bang
        }
    } else if c == '=' {
        if followed_by_equal {
            TokenType::EqualEqual
        } else {
            TokenType::Equal
        }
    } else if c == '<' {
        if followed_by_equal {
            TokenType::LessEqual
        } else {
            TokenType::Less
        }
    } else {
        if followed_by_equal {
            TokenType::GreaterEqual
        } else {
            TokenType::Greater
        }
    }
}

/// The token sequence that scanning `src` from position `i` at the given
/// line yields, ending with exactly one end-of-input token. Each step
/// consumes at least one character and follows the maximal-munch rule; bad
/// characters and unterminated strings yield no token.
pub open spec fn scan_from(src: Seq<char>, i: int, line: int) -> Seq<TokenModel>
    decreases src.len() - i when 0 <= i <= src.len() via scan_from_decreases
{
    if i >= src.len() {
        seq![eof_token(line)]
    } else {
        let c = src[i];
        if single_char_type(c) is Some {
            seq![plain_token(single_char_type(c)->0, src, i, i + 1, line)] + scan_from(
                src,
                i + 1,
                line,
            )
        } else if c == '!' || c == '=' || c == '<' || c == '>' {
            let two = i + 1 < src.len() && src[i + 1] == '=';
            let j = if two {
                i + 2
            } else {
                i + 1
            };
            seq![plain_token(operator_type(c, two), src, i, j, line)] + scan_from(src, j, line)
        } else if c == '/' {
            if i + 1 < src.len() && src[i + 1] == '/' {
                scan_from(src, comment_end(src, i + 2), line)
            } else {
                seq![plain_token(TokenType::Slash, src, i, i + 1, line)] + scan_from(
                    src,
                    i + 1,
                    line,
                )
            }
        } else if c == ' ' || c == '\r' || c == '\t' {
            scan_from(src, i + 1, line)
        } else if c == '\n' {
            scan_from(src, i + 1, line + 1)
        } else if c == '"' {
            let close = quote_end(src, i + 1);
            let new_line = line + newlines_in(src, i + 1, close);
            if close >= src.len() {
                seq![eof_token(new_line)]
            } else {
                seq![
                    TokenModel {
                        token_type: TokenType::String,
                        lexeme: src.subrange(i, close + 1),
                        literal: Some(LiteralModel::String(src.subrange(i + 1, close))),
                        line: new_line,
                    },
                ] + scan_from(src, close + 1, new_line)
            }
        } else if is_digit(c) {
            let ie = digits_end(src, i);
            let has_frac = ie + 1 < src.len() && src[ie] == '.' && is_digit(src[ie + 1]);
            let j = if has_frac {
                digits_end(src, ie + 1)
            } else {
                ie
            };
            let payload = if has_frac {
                number_payload(src.subrange(i, ie), src.subrange(ie + 1, j))
            } else {
                number_payload(src.subrange(i, ie), Seq::empty())
            };
            seq![
                TokenModel {
                    token_type: TokenType::Number,
                    lexeme: src.subrange(i, j),
                    literal: Some(LiteralModel::Number(payload)),
                    line,
                },
            ] + scan_from(src, j, line)
        } else if is_alpha(c) {
            let j = ident_end(src, i);
            let kind = match keyword_type(src.subrange(i, j)) {
                Some(k) => k,
                None => TokenType::Identifier,
            };
            seq![plain_token(kind, src, i, j, line)] + scan_from(src, j, line)
        } else {
            scan_from(src, i + 1, line)
        }
    }
}

/// Cap on the accumulated whole-part value: one order of magnitude beyond
/// the largest representable whole part, so that clamping is preserved.
pub const DIGIT_CAP: u128 = 1_000_000_000_000_000_000_000;

/// The accumulated value of a digit run, capped at `DIGIT_CAP`.
pub open spec fn capped(v: int) -> int {
    if v <= DIGIT_CAP as int {
        v
    } else {
        DIGIT_CAP as int
    }
}

/// Whether every character of the sequence is a digit.
pub open spec fn all_digits(s: Seq<char>) -> bool {
    forall|k: int| 0 <= k < s.len() ==> is_digit(s[k])
}

/// Ten to any power is positive.
proof fn lemma_pow10_pos(d: nat)
    ensures
        pow10(d) >= 1,
    decreases d,
{
    if d > 0 {
        lemma_pow10_pos((d - 1) as nat);
    }
}

/// Powers of ten multiply by adding exponents.
proof fn lemma_pow10_mul(a: nat, b: nat)
    ensures
        pow10(a) * pow10(b) == pow10(a + b),
    decreases a,
{
    if a == 0 {
        assert(pow10(0) * pow10(b) == pow10(b)) by (nonlinear_arith)
            requires
                pow10(0) == 1,
        ;
    } else {
        lemma_pow10_mul((a - 1) as nat, b);
        assert(pow10(a) * pow10(b) == 10 * pow10((a + b - 1) as nat)) by (nonlinear_arith)
            requires
                pow10(a) == 10 * pow10((a - 1) as nat),
                pow10((a - 1) as nat) * pow10(b) == pow10((a - 1 + b) as nat),
                pow10((a + b - 1) as nat) == pow10((a - 1 + b) as nat),
        ;
    }
}

/// The value of a digit run is nonnegative and below ten to its length.
proof fn lemma_digits_value_bound(s: Seq<char>)
    requires
        all_digits(s),
    ensures
        0 <= digits_value(s) < pow10(s.len()),
    decreases s.len(),
{
    if s.len() == 0 {
    } else {
        assert(all_digits(s.drop_last())) by {
            assert(forall|k: int|
                0 <= k < s.len() - 1 ==> s.drop_last()[k] == s[k] && is_digit(#[trigger] s[k]));
        }
        lemma_digits_value_bound(s.drop_last());
        let n: nat = s.len();
        let d = s.last() as u32 - 48;
        assert(is_digit(s.last()));
        assert(0 <= d < 10);
        assert(digits_value(s) < pow10(n)) by (nonlinear_arith)
            requires
                digits_value(s) == digits_value(s.drop_last()) * 10 + d,
                0 <= digits_value(s.drop_last()) < pow10((n - 1) as nat),
                pow10(n) == 10 * pow10((n - 1) as nat),
                0 <= d < 10,
        ;
        assert(digits_value(s) >= 0) by (nonlinear_arith)
            requires
                digits_value(s) == digits_value(s.drop_last()) * 10 + d,
                digits_value(s.drop_last()) >= 0,
                d >= 0,
        ;
    }
}

/// The fractional contribution is nonnegative and below the scale factor.
proof fn lemma_frac_value_bound(s: Seq<char>)
    requires
        all_digits(s),
    ensures
        0 <= frac_value(s) < SCALE as int,
    decreases s.len(),
{
    reveal_with_fuel(pow10, 10);
    if s.len() >= 9 {
        let t = s.subrange(0, 9);
        assert(all_digits(t));
        lemma_digits_value_bound(t);
    } else {
        lemma_digits_value_bound(s);
        let k = (9 - s.len()) as nat;
        lemma_pow10_pos(k);
        lemma_pow10_mul(s.len(), k);
        assert(0 <= digits_value(s) * pow10(k) < pow10(s.len()) * pow10(k)) by (nonlinear_arith)
            requires
                0 <= digits_value(s) < pow10(s.len()),
                pow10(k) >= 1,
        ;
    }
}

/// The clamped scaled payload built from the capped whole part equals the
/// clamped payload built from the exact whole part.
proof fn lemma_payload_from_capped(intpart: Seq<char>, fracpart: Seq<char>)
    requires
        all_digits(intpart),
        all_digits(fracpart),
    ensures
        ({
            let full = capped(digits_value(intpart)) * (SCALE as int) + frac_value(fracpart);
            number_payload(intpart, fracpart) == if full <= MAX_SCALED as int {
                full
            } else {
                MAX_SCALED as int
            }
        }),
{
    let dv = digits_value(intpart);
    let fv = frac_value(fracpart);
    lemma_digits_value_bound(intpart);
    lemma_frac_value_bound(fracpart);
    if dv > DIGIT_CAP as int {
        assert(dv * (SCALE as int) > DIGIT_CAP as int * (SCALE as int)) by (nonlinear_arith)
            requires
                dv > DIGIT_CAP as int,
                SCALE as int > 0,
        ;
    }
}

/// A run of identifier characters reaching the end of the source ends the
/// identifier exactly at the end.
proof fn lemma_ident_end_full(src: Seq<char>, i: int)
    requires
        0 <= i <= src.len(),
        forall|k: int| i <= k < src.len() ==> is_alpha_numeric(src[k]),
    ensures
        ident_end(src, i) == src.len(),
    decreases src.len() - i,
{
    if i < src.len() {
        lemma_ident_end_full(src, i + 1);
    }
}

/// Law: scanning one whole word — a letter or underscore followed by
/// letters, digits, and underscores — yields exactly one token covering the
/// word and the end-of-input token, both at line one. The word's type is
/// its keyword type on an exact whole-token match in the fixed table, and a
/// generic identifier otherwise: a keyword as a strict prefix or suffix of
/// a longer word is never split out.
pub proof fn lemma_scan_word(src: Seq<char>)
    requires
        src.len() >= 1,
        is_alpha(src[0]),
        forall|k: int| 0 <= k < src.len() ==> is_alpha_numeric(src[k]),
    ensures
        scan_from(src, 0, 1) == seq![
            plain_token(
                match keyword_type(src) {
                    Some(k) => k,
                    None => TokenType::Identifier,
                },
                src,
                0,
                src.len() as int,
                1,
            ),
            eof_token(1),
        ],
{
    lemma_ident_end_full(src, 0);
    assert(src.subrange(0, src.len() as int) =~= src);
    let kind = match keyword_type(src) {
        Some(k) => k,
        None => TokenType::Identifier,
    };
    assert(scan_from(src, src.len() as int, 1) == seq![eof_token(1)]);
    assert(seq![plain_token(kind, src, 0, src.len() as int, 1)] + seq![eof_token(1)] =~= seq![
        plain_token(kind, src, 0, src.len() as int, 1),
        eof_token(1),
    ]);
}

/// Law: scanning the exact text of any word in the fixed keyword table
/// yields one token of that keyword's type, not a generic identifier,
/// followed by the end-of-input token.
pub proof fn lemma_scan_keyword(src: Seq<char>)
    requires
        keyword_type(src) is Some,
    ensures
        scan_from(src, 0, 1) == seq![
            plain_token(keyword_type(src)->0, src, 0, src.len() as int, 1),
            eof_token(1),
        ],
{
    reveal_strlit("and");
    reveal_strlit("class");
    reveal_strlit("else");
    reveal_strlit("false");
    reveal_strlit("for");
    reveal_strlit("fun");
    reveal_strlit("if");
    reveal_strlit("nil");
    reveal_strlit("or");
    reveal_strlit("print");
    reveal_strlit("return");
    reveal_strlit("super");
    reveal_strlit("this");
    reveal_strlit("true");
    reveal_strlit("var");
    reveal_strlit("while");
    lemma_scan_word(src);
}

/// Law: scanning any word that is spelled like no keyword — for example a
/// strict superstring of a keyword — yields one generic identifier token
/// with the word as its lexeme, followed by the end-of-input token.
pub proof fn lemma_scan_identifier(src: Seq<char>)
    requires
        src.len() >= 1,
        is_alpha(src[0]),
        forall|k: int| 0 <= k < src.len() ==> is_alpha_numeric(src[k]),
        keyword_type(src) is None,
    ensures
        scan_from(src, 0, 1) == seq![
            plain_token(TokenType::Identifier, src, 0, src.len() as int, 1),
            eof_token(1),
        ],
{
    lemma_scan_word(src);
}

/// Law: every scan yields at least one token, its last token is the one
/// end-of-input token, and no earlier token is an end-of-input token.
pub proof fn lemma_scan_one_eof(src: Seq<char>, i: int, line: int)
    requires
        0 <= i <= src.len(),
    ensures
        ({
            let ts = scan_from(src, i, line);
            &&& ts.len() >= 1
            &&& ts.last().token_type == TokenType::Eof
            &&& forall|k: int| 0 <= k < ts.len() - 1 ==> ts[k].token_type != TokenType::Eof
        }),
    decreases src.len() - i,
{
    if i >= src.len() {
    } else {
        let c = src[i];
        if single_char_type(c) is Some {
            lemma_scan_one_eof(src, i + 1, line);
        } else if c == '!' || c == '=' || c == '<' || c == '>' {
            let two = i + 1 < src.len() && src[i + 1] == '=';
            if two {
                lemma_scan_one_eof(src, i + 2, line);
            } else {
                lemma_scan_one_eof(src, i + 1, line);
            }
        } else if c == '/' {
            if i + 1 < src.len() && src[i + 1] == '/' {
                lemma_comment_end(src, i + 2);
                lemma_scan_one_eof(src, comment_end(src, i + 2), line);
            } else {
                lemma_scan_one_eof(src, i + 1, line);
            }
        } else if c == ' ' || c == '\r' || c == '\t' {
            lemma_scan_one_eof(src, i + 1, line);
        } else if c == '\n' {
            lemma_scan_one_eof(src, i + 1, line + 1);
        } else if c == '"' {
            lemma_quote_end(src, i + 1);
            let close = quote_end(src, i + 1);
            if close < src.len() {
                lemma_scan_one_eof(src, close + 1, line + newlines_in(src, i + 1, close));
            }
        } else if is_digit(c) {
            lemma_digits_end(src, i);
            let ie = digits_end(src, i);
            if ie + 1 < src.len() && src[ie] == '.' && is_digit(src[ie + 1]) {
                lemma_digits_end(src, ie + 1);
                lemma_scan_one_eof(src, digits_end(src, ie + 1), line);
            } else {
                lemma_scan_one_eof(src, ie, line);
            }
        } else if is_alpha(c) {
            lemma_ident_end(src, i);
            lemma_scan_one_eof(src, ident_end(src, i), line);
        } else {
            lemma_scan_one_eof(src, i + 1, line);
        }
    }
}

/// Appending one token appends its model.
proof fn lemma_tokens_model_push(ts: Seq<Token>, t: Token)
    ensures
        tokens_model(ts.push(t)) == tokens_model(ts).push(t@),
{
    assert(tokens_model(ts.push(t)) =~= tokens_model(ts).push(t@));
}

/// Whether a character is a decimal digit, as executable code.
fn is_digit_char(c: char) -> (r: bool)
    ensures
        r == is_digit(c),
{
    '0' <= c && c <= '9'
}

/// Whether a character can start an identifier, as executable code.
fn is_alpha_char(c: char) -> (r: bool)
    ensures
        r == is_alpha(c),
{
    ('a' <= c && c <= 'z') || ('A' <= c && c <= 'Z') || c == '_'
}

/// Whether a character can continue an identifier, as executable code.
fn is_alpha_numeric_char(c: char) -> (r: bool)
    ensures
        r == is_alpha_numeric(c),
{
    is_alpha_char(c) || is_digit_char(c)
}

/// The value of the digit run `src[lo..hi]`, capped at `DIGIT_CAP`.
fn capped_digits(src: &Vec<char>, lo: usize, hi: usize) -> (r: u128)
    requires
        lo <= hi <= src@.len(),
        forall|k: int| lo <= k < hi ==> is_digit(src@[k]),
    ensures
        r as int == capped(digits_value(src@.subrange(lo as int, hi as int))),
        r <= DIGIT_CAP,
{
    let mut acc: u128 = 0;
    let mut j: usize = lo;
    proof {
        assert(src@.subrange(lo as int, lo as int) =~= Seq::<char>::empty());
    }
    while j < hi
        invariant
            lo <= j <= hi <= src@.len(),
            forall|k: int| lo <= k < hi ==> is_digit(src@[k]),
            acc as int == capped(digits_value(src@.subrange(lo as int, j as int))),
            acc <= DIGIT_CAP,
        decreases hi - j,
    {
        let ghost prefix = src@.subrange(lo as int, j as int);
        let ghost dv = digits_value(prefix);
        let c = src[j];
        let d: u128 = (c as u32 - 48) as u128;
        proof {
            assert(is_digit(c));
            assert(d < 10);
        }
        let mut next: u128 = acc * 10 + d;
        if next > DIGIT_CAP {
            next = DIGIT_CAP;
        }
        acc = next;
        j = j + 1;
        proof {
            let prefix2 = src@.subrange(lo as int, j as int);
            assert(prefix2.drop_last() =~= prefix);
            assert(prefix2.last() == c);
            assert(digits_value(prefix2) == dv * 10 + d);
            if dv > DIGIT_CAP as int {
                assert(dv * 10 + d > DIGIT_CAP as int) by (nonlinear_arith)
                    requires
                        dv > DIGIT_CAP as int,
                        d >= 0,
                ;
            }
        }
    }
    acc
}

/// The scaled value of the fractional digit run `src[lo..hi]`: the first
/// nine digits, padded with zeros when the run is shorter.
fn frac_scaled(src: &Vec<char>, lo: usize, hi: usize) -> (r: u128)
    requires
        lo <= hi <= src@.len(),
        forall|k: int| lo <= k < hi ==> is_digit(src@[k]),
    ensures
        r as int == frac_value(src@.subrange(lo as int, hi as int)),
{
    let ghost whole = src@.subrange(lo as int, hi as int);
    let mut acc: u128 = 0;
    let mut cnt: usize = 0;
    let mut j: usize = lo;
    proof {
        reveal_with_fuel(pow10, 10);
        assert(src@.subrange(lo as int, lo as int) =~= Seq::<char>::empty());
    }
    while j < hi && cnt < 9
        invariant
            lo <= j <= hi <= src@.len(),
            cnt == j - lo,
            cnt <= 9,
            forall|k: int| lo <= k < hi ==> is_digit(src@[k]),
            acc as int == digits_value(src@.subrange(lo as int, j as int)),
            (acc as int) < pow10(cnt as nat),
            pow10(9) == SCALE as int,
        decreases hi - j,
    {
        let ghost prefix = src@.subrange(lo as int, j as int);
        let c = src[j];
        let d: u128 = (c as u32 - 48) as u128;
        proof {
            assert(is_digit(c));
            assert(d < 10);
            assert(pow10((cnt + 1) as nat) == 10 * pow10(cnt as nat));
            assert(acc * 10 + d < pow10((cnt + 1) as nat)) by (nonlinear_arith)
                requires
                    (acc as int) < pow10(cnt as nat),
                    pow10((cnt + 1) as nat) == 10 * pow10(cnt as nat),
                    0 <= acc,
                    0 <= d < 10,
            ;
            lemma_pow10_increases(cnt as nat + 1, 9);
        }
        acc = acc * 10 + d;
        cnt = cnt + 1;
        j = j + 1;
        proof {
            let prefix2 = src@.subrange(lo as int, j as int);
            assert(prefix2.drop_last() =~= prefix);
            assert(prefix2.last() == c);
        }
    }
    if cnt == 9 {
        proof {
            assert(whole.len() >= 9);
            assert(whole.subrange(0, 9) =~= src@.subrange(lo as int, lo as int + 9));
        }
        acc
    } else {
        proof {
            assert(j == hi && whole.len() < 9);
            assert(src@.subrange(lo as int, j as int) =~= whole);
            assert(cnt == whole.len());
            assert(pow10((cnt - whole.len()) as nat) == 1);
            assert(digits_value(whole) * 1 == digits_value(whole)) by (nonlinear_arith);
        }
        while cnt < 9
            invariant
                cnt <= 9,
                whole.len() <= cnt,
                acc as int == digits_value(whole) * pow10((cnt - whole.len()) as nat),
                (acc as int) < pow10(cnt as nat),
                pow10(9) == SCALE as int,
            decreases 9 - cnt,
        {
            proof {
                let k = (cnt - whole.len()) as nat;
                assert(pow10(k + 1) == 10 * pow10(k));
                assert(digits_value(whole) * pow10(k) * 10 == digits_value(whole) * pow10(k + 1))
                    by (nonlinear_arith)
                    requires
                        pow10(k + 1) == 10 * pow10(k),
                ;
                assert(pow10((cnt + 1) as nat) == 10 * pow10(cnt as nat));
                assert(acc * 10 < pow10((cnt + 1) as nat)) by (nonlinear_arith)
                    requires
                        (acc as int) < pow10(cnt as nat),
                        pow10((cnt + 1) as nat) == 10 * pow10(cnt as nat),
                        0 <= acc,
                ;
                lemma_pow10_increases(cnt as nat + 1, 9);
            }
            acc = acc * 10;
            cnt = cnt + 1;
        }
        acc
    }
}

/// Powers of ten do not decrease with the exponent.
proof fn lemma_pow10_increases(a: nat, b: nat)
    requires
        a <= b,
    ensures
        pow10(a) <= pow10(b),
    decreases b,
{
    if a < b {
        lemma_pow10_increases(a, (b - 1) as nat);
        lemma_pow10_pos((b - 1) as nat);
        assert(pow10(b) == 10 * pow10((b - 1) as nat));
        assert(pow10((b - 1) as nat) <= 10 * pow10((b - 1) as nat)) by (nonlinear_arith)
            requires
                pow10((b - 1) as nat) >= 1,
        ;
    }
}

/// Converts a source string into a token sequence in one pass.
pub struct Scanner {
    source: Vec<char>,
    tokens: Vec<Token>,
    diagnostics: Vec<String>,
    start: usize,
    current: usize,
    line: usize,
}

impl Scanner {
    /// The character sequence being scanned.
    pub closed spec fn src(self) -> Seq<char> {
        self.source@
    }

    /// Whether this scanner is still in its initial state.
    pub closed spec fn fresh(self) -> bool {
        self.start == 0 && self.current == 0 && self.line == 1 && self.tokens@ == Seq::<
            Token,
        >::empty()
    }

    /// Internal consistency: the cursor stays within the source, the token
    /// start does not pass the cursor, and the line counter never exceeds
    /// one more than the number of characters consumed.
    spec fn wf(self) -> bool {
        &&& self.start <= self.current <= self.source@.len()
        &&& 1 <= self.line
        &&& self.line - 1 <= self.current
    }

    /// Builds a scanner over the given source text.
    pub fn new(source: String) -> (r: Self)
        ensures
            r.src() == source@,
            r.fresh(),
    {
        Self {
            source: str_to_chars(source.as_str()),
            tokens: Vec::new(),
            diagnostics: Vec::new(),
            start: 0,
            current: 0,
            line: 1,
        }
    }

    /// The diagnostics reported so far: one line for each bad character or
    /// unterminated string met while scanning.
    pub fn diagnostics(&self) -> &Vec<String> {
        &self.diagnostics
    }

    /// Whether the cursor has reached the end of the source.
    fn is_at_end(&self) -> (r: bool)
        ensures
            r == (self.current >= self.source@.len()),
    {
        self.current >= self.source.len()
    }

    /// Consumes and returns the character at the cursor.
    fn advance(&mut self) -> (c: char)
        requires
            old(self).current < old(self).source@.len(),
        ensures
            c == old(self).source@[old(self).current as int],
            final(self).current == old(self).current + 1,
            final(self).source == old(self).source,
            final(self).tokens == old(self).tokens,
            final(self).diagnostics == old(self).diagnostics,
            final(self).start == old(self).start,
            final(self).line == old(self).line,
    {
        // The length is a usize and bounds the cursor, so the increment
        // cannot overflow.
        let n: usize = self.source.len();
        let c = self.source[self.current];
        self.current = self.current + 1;
        c
    }

    /// The character at the cursor, or the null character at the end.
    fn peek(&self) -> (c: char)
        ensures
            self.current < self.source@.len() ==> c == self.source@[self.current as int],
            self.current >= self.source@.len() ==> c == '\0',
    {
        if self.current >= self.source.len() {
            '\0'
        } else {
            self.source[self.current]
        }
    }

    /// The character one past the cursor, or the null character at the end.
    fn peek_next(&self) -> (c: char)
        ensures
            self.current + 1 < self.source@.len() ==> c == self.source@[self.current + 1],
            self.current + 1 >= self.source@.len() ==> c == '\0',
    {
        let n: usize = self.source.len();
        if self.current >= n {
            '\0'
        } else if self.current + 1 >= n {
            '\0'
        } else {
            self.source[self.current + 1]
        }
    }

    /// Consumes the character at the cursor when it equals the expected one.
    fn token_match(&mut self, expected: char) -> (r: bool)
        requires
            old(self).current <= old(self).source@.len(),
        ensures
            r == (old(self).current < old(self).source@.len() && old(self).source@[old(
                self,
            ).current as int] == expected),
            final(self).current == if r {
                (old(self).current + 1) as usize
            } else {
                old(self).current
            },
            final(self).source == old(self).source,
            final(self).tokens == old(self).tokens,
            final(self).diagnostics == old(self).diagnostics,
            final(self).start == old(self).start,
            final(self).line == old(self).line,
    {
        if self.is_at_end() {
            return false;
        }
        // The length is a usize and bounds the cursor, so the increment
        // cannot overflow.
        let n: usize = self.source.len();
        if self.source[self.current] != expected {
            return false;
        }
        self.current = self.current + 1;
        true
    }

    /// The source text in `[lo, hi)`, as an owned string.
    fn range_string(&self, lo: usize, hi: usize) -> (s: String)
        requires
            lo <= hi <= self.source@.len(),
        ensures
            s@ == self.source@.subrange(lo as int, hi as int),
    {
        let mut v: Vec<char> = Vec::new();
        let mut i: usize = lo;
        while i < hi
            invariant
                lo <= i <= hi <= self.source@.len(),
                v@ == self.source@.subrange(lo as int, i as int),
            decreases hi - i,
        {
            v.push(self.source[i]);
            i = i + 1;
            proof {
                assert(v@ =~= self.source@.subrange(lo as int, i as int));
            }
        }
        chars_to_string(v)
    }

    /// The source text between `start` and the cursor, as an owned string.
    fn lexeme_string(&self) -> (s: String)
        requires
            self.start <= self.current <= self.source@.len(),
        ensures
            s@ == self.source@.subrange(self.start as int, self.current as int),
    {
        self.range_string(self.start, self.current)
    }

    /// Appends a token with no literal payload for the current lexeme.
    fn add_token(&mut self, token_type: TokenType)
        requires
            old(self).start <= old(self).current <= old(self).source@.len(),
        ensures
            final(self).current == old(self).current,
            final(self).source == old(self).source,
            final(self).diagnostics == old(self).diagnostics,
            final(self).start == old(self).start,
            final(self).line == old(self).line,
            tokens_model(final(self).tokens@) == tokens_model(old(self).tokens@).push(
                plain_token(
                    token_type,
                    old(self).source@,
                    old(self).start as int,
                    old(self).current as int,
                    old(self).line as int,
                ),
            ),
    {
        self.add_token_literal(token_type, None);
    }

    /// Appends a token carrying the given literal payload for the current
    /// lexeme.
    fn add_token_literal(&mut self, token_type: TokenType, literal: Option<Literal>)
        requires
            old(self).start <= old(self).current <= old(self).source@.len(),
        ensures
            final(self).current == old(self).current,
            final(self).source == old(self).source,
            final(self).diagnostics == old(self).diagnostics,
            final(self).start == old(self).start,
            final(self).line == old(self).line,
            tokens_model(final(self).tokens@) == tokens_model(old(self).tokens@).push(
                (TokenModel {
                    token_type,
                    lexeme: old(self).source@.subrange(
                        old(self).start as int,
                        old(self).current as int,
                    ),
                    literal: match literal {
                        Some(l) => Some(l@),
                        None => None,
                    },
                    line: old(self).line as int,
                }),
            ),
    {
        let text = self.lexeme_string();
        let t = Token::new(token_type, text, literal, self.line);
        proof {
            lemma_tokens_model_push(self.tokens@, t);
        }
        self.tokens.push(t);
    }

    /// Scans the rest of a string literal, the opening quote already
    /// consumed: up to the closing quote, counting embedded newlines; an
    /// unterminated string reports a diagnostic and yields no token.
    fn string(&mut self)
        requires
            old(self).wf(),
            old(self).source@.len() < usize::MAX,
            old(self).start + 1 == old(self).current,
            old(self).current <= old(self).source@.len(),
        ensures
            final(self).wf(),
            final(self).source == old(self).source,
            final(self).start == old(self).start,
            ({
                let src = old(self).source@;
                let i = old(self).current as int;
                let close = quote_end(src, i);
                let new_line = old(self).line + newlines_in(src, i, close);
                if close < src.len() {
                    &&& final(self).current == close + 1
                    &&& final(self).line == new_line
                    &&& tokens_model(final(self).tokens@) == tokens_model(
                        old(self).tokens@,
                    ).push(
                        (TokenModel {
                            token_type: TokenType::String,
                            lexeme: src.subrange(old(self).start as int, close + 1),
                            literal: Some(LiteralModel::String(src.subrange(i, close))),
                            line: new_line,
                        }),
                    )
                } else {
                    &&& final(self).current == src.len()
                    &&& final(self).line == new_line
                    &&& final(self).tokens == old(self).tokens
                }
            }),
    {
        let ghost src = self.source@;
        let ghost i0 = self.current as int;
        let ghost line0 = self.line as int;
        while self.peek() != '"' && !self.is_at_end()
            invariant
                self.wf(),
                self.source == old(self).source,
                src == self.source@,
                self.start == old(self).start,
                self.tokens == old(self).tokens,
                src.len() < usize::MAX,
                i0 <= self.current as int,
                quote_end(src, self.current as int) == quote_end(src, i0),
                self.line as int == line0 + newlines_in(src, i0, self.current as int),
            decreases src.len() - self.current,
        {
            proof {
                assert(self.current < src.len());
                assert(src[self.current as int] != '"');
            }
            if self.peek() == '\n' {
                self.line = self.line + 1;
            }
            let ghost cur = self.current as int;
            self.advance();
            proof {
                assert(newlines_in(src, i0, cur + 1) == newlines_in(src, i0, cur) + if src[cur]
                    == '\n' {
                    1int
                } else {
                    0int
                });
            }
        }
        proof {
            lemma_quote_end(src, i0);
        }
        if self.is_at_end() {
            let mut msg = String::new();
            msg.append("[line ");
            let line_text = uint_string(self.line as u128);
            msg.append(line_text.as_str());
            msg.append("] Error: Unterminated string.");
            self.diagnostics.push(msg);
            return ;
        }
        proof {
            assert(src[self.current as int] == '"');
            assert(quote_end(src, self.current as int) == self.current as int);
        }
        self.advance();
        let value = self.range_string(self.start + 1, self.current - 1);
        self.add_token_literal(TokenType::String, Some(Literal::String(value)));
    }



    /// Scans the rest of a number literal, the first digit already consumed:
    /// a maximal digit run, then a fractional part only when a dot is
    /// followed by another digit.
    fn number(&mut self)
        requires
            old(self).wf(),
            old(self).start + 1 == old(self).current,
            old(self).current <= old(self).source@.len(),
            is_digit(old(self).source@[old(self).start as int]),
        ensures
            final(self).wf(),
            final(self).source == old(self).source,
            final(self).start == old(self).start,
            final(self).line == old(self).line,
            final(self).diagnostics == old(self).diagnostics,
            ({
                let src = old(self).source@;
                let i = old(self).start as int;
                let ie = digits_end(src, i);
                let has_frac = ie + 1 < src.len() && src[ie] == '.' && is_digit(src[ie + 1]);
                let j = if has_frac {
                    digits_end(src, ie + 1)
                } else {
                    ie
                };
                let fracpart = if has_frac {
                    src.subrange(ie + 1, j)
                } else {
                    Seq::<char>::empty()
                };
                &&& final(self).current == j
                &&& tokens_model(final(self).tokens@) == tokens_model(old(self).tokens@).push(
                    (TokenModel {
                        token_type: TokenType::Number,
                        lexeme: src.subrange(i, j),
                        literal: Some(
                            LiteralModel::Number(number_payload(src.subrange(i, ie), fracpart)),
                        ),
                        line: old(self).line as int,
                    }),
                )
            }),
    {
        let ghost src = self.source@;
        let ghost i = self.start as int;
        proof {
            lemma_digits_end(src, i);
        }
        while is_digit_char(self.peek())
            invariant
                self.wf(),
                self.source == old(self).source,
                src == self.source@,
                self.start == old(self).start,
                self.tokens == old(self).tokens,
                self.diagnostics == old(self).diagnostics,
                self.line == old(self).line,
                i + 1 <= self.current as int <= src.len(),
                digits_end(src, self.current as int) == digits_end(src, i),
            decreases src.len() - self.current,
        {
            proof {
                assert(self.current < src.len() && is_digit(src[self.current as int]));
            }
            self.advance();
        }
        let ghost ie = digits_end(src, i);
        proof {
            assert(self.current as int == ie);
        }
        let ie_exec: usize = self.current;
        let mut has_frac: bool = false;
        if self.peek() == '.' && is_digit_char(self.peek_next()) {
            has_frac = true;
            self.advance();
            proof {
                lemma_digits_end(src, ie + 1);
            }
            while is_digit_char(self.peek())
                invariant
                    self.wf(),
                    self.source == old(self).source,
                    src == self.source@,
                    self.start == old(self).start,
                    self.tokens == old(self).tokens,
                    self.diagnostics == old(self).diagnostics,
                    self.line == old(self).line,
                    ie + 1 <= self.current as int <= src.len(),
                    digits_end(src, self.current as int) == digits_end(src, ie + 1),
                decreases src.len() - self.current,
            {
                proof {
                    assert(self.current < src.len() && is_digit(src[self.current as int]));
                }
                self.advance();
            }
        }
        let ghost intpart = src.subrange(i, ie);
        let ghost fracpart = if has_frac {
            src.subrange(ie + 1, self.current as int)
        } else {
            Seq::<char>::empty()
        };
        proof {
            lemma_digits_end(src, i);
            assert(forall|k: int| i <= k < ie ==> is_digit(src[k]));
            assert(all_digits(intpart));
        }
        let intv = capped_digits(&self.source, self.start, ie_exec);
        let fv: u128 = if has_frac {
            proof {
                lemma_digits_end(src, ie + 1);
                assert(all_digits(fracpart));
            }
            frac_scaled(&self.source, ie_exec + 1, self.current)
        } else {
            0
        };
        proof {
            if has_frac {
                lemma_frac_value_bound(fracpart);
            } else {
                assert(digits_value(fracpart) == 0);
                assert(frac_value(fracpart) == 0 * pow10(9));
                assert(0 * pow10(9) == 0) by (nonlinear_arith);
            }
            assert(intv * SCALE_MAG <= DIGIT_CAP * SCALE_MAG) by (nonlinear_arith)
                requires
                    intv <= DIGIT_CAP,
                    SCALE_MAG > 0,
            ;
        }
        let full: u128 = intv * SCALE_MAG + fv;
        let num = Number::from_scaled_clamped(full);
        proof {
            lemma_payload_from_capped(intpart, fracpart);
        }
        self.add_token_literal(TokenType::Number, Some(Literal::Number(num)));
        proof {
            assert(src.subrange(i, self.current as int) == src.subrange(
                old(self).start as int,
                self.current as int,
            ));
        }
    }

    /// Whether the current lexeme equals the given text.
    fn range_matches(&self, s: &str) -> (r: bool)
        requires
            self.start <= self.current <= self.source@.len(),
        ensures
            r == (self.source@.subrange(self.start as int, self.current as int) == s@),
    {
        let ghost sub = self.source@.subrange(self.start as int, self.current as int);
        let n: usize = s.unicode_len();
        if self.current - self.start != n {
            proof {
                assert(sub.len() != s@.len());
            }
            return false;
        }
        let mut j: usize = 0;
        while j < n
            invariant
                0 <= j <= n,
                n == s@.len(),
                self.start + n == self.current <= self.source@.len(),
                sub == self.source@.subrange(self.start as int, self.current as int),
                forall|k: int| 0 <= k < j ==> sub[k] == s@[k],
            decreases n - j,
        {
            let c = self.source[self.start + j];
            if c != s.get_char(j) {
                proof {
                    assert(sub[j as int] != s@[j as int]);
                }
                return false;
            }
            j = j + 1;
        }
        proof {
            assert(sub =~= s@);
        }
        true
    }

    /// The token type of the current lexeme: its keyword type on an exact
    /// match in the fixed table, a generic identifier otherwise.
    fn keyword_kind(&self) -> (t: TokenType)
        requires
            self.start <= self.current <= self.source@.len(),
        ensures
            t == (match keyword_type(
                self.source@.subrange(self.start as int, self.current as int),
            ) {
                Some(k) => k,
                None => TokenType::Identifier,
            }),
    {
        if self.range_matches("and") {
            TokenType::And
        } else if self.range_matches("class") {
            TokenType::Class
        } else if self.range_matches("else") {
            TokenType::Else
        } else if self.range_matches("false") {
            TokenType::False
        } else if self.range_matches("for") {
            TokenType::For
        } else if self.range_matches("fun") {
            TokenType::Fun
        } else if self.range_matches("if") {
            TokenType::If
        } else if self.range_matches("nil") {
            TokenType::Nil
        } else if self.range_matches("or") {
            TokenType::Or
        } else if self.range_matches("print") {
            TokenType::Print
        } else if self.range_matches("return") {
            TokenType::Return
        } else if self.range_matches("super") {
            TokenType::Super
        } else if self.range_matches("this") {
            TokenType::This
        } else if self.range_matches("true") {
            TokenType::True
        } else if self.range_matches("var") {
            TokenType::Var
        } else if self.range_matches("while") {
            TokenType::While
        } else {
            TokenType::Identifier
        }
    }

    /// Scans the rest of an identifier, its first character already
    /// consumed: a maximal run of letters, digits, and underscores, then a
    /// whole-token keyword lookup.
    fn identifier(&mut self)
        requires
            old(self).wf(),
            old(self).start + 1 == old(self).current,
            old(self).current <= old(self).source@.len(),
            is_alpha(old(self).source@[old(self).start as int]),
        ensures
            final(self).wf(),
            final(self).source == old(self).source,
            final(self).start == old(self).start,
            final(self).line == old(self).line,
            final(self).diagnostics == old(self).diagnostics,
            ({
                let src = old(self).source@;
                let i = old(self).start as int;
                let j = ident_end(src, i);
                let kind = match keyword_type(src.subrange(i, j)) {
                    Some(k) => k,
                    None => TokenType::Identifier,
                };
                &&& final(self).current == j
                &&& tokens_model(final(self).tokens@) == tokens_model(old(self).tokens@).push(
                    plain_token(kind, src, i, j, old(self).line as int),
                )
            }),
    {
        let ghost src = self.source@;
        let ghost i = self.start as int;
        proof {
            lemma_ident_end(src, i);
        }
        while is_alpha_numeric_char(self.peek())
            invariant
                self.wf(),
                self.source == old(self).source,
                src == self.source@,
                self.start == old(self).start,
                self.tokens == old(self).tokens,
                self.diagnostics == old(self).diagnostics,
                self.line == old(self).line,
                i + 1 <= self.current as int <= src.len(),
                ident_end(src, self.current as int) == ident_end(src, i),
            decreases src.len() - self.current,
        {
            proof {
                assert(self.current < src.len() && is_alpha_numeric(src[self.current as int]));
            }
            self.advance();
        }
        let token_type = self.keyword_kind();
        self.add_token(token_type);
    }

    /// Scans one step starting at the cursor: consumes at least one
    /// character and appends the token it forms, if any.
    fn scan_token(&mut self)
        requires
            old(self).wf(),
            old(self).current < old(self).source@.len(),
            old(self).start == old(self).current,
            old(self).source@.len() < usize::MAX,
        ensures
            final(self).wf(),
            final(self).source == old(self).source,
            final(self).current > old(self).current,
            tokens_model(final(self).tokens@) + scan_from(
                final(self).source@,
                final(self).current as int,
                final(self).line as int,
            ) == tokens_model(old(self).tokens@) + scan_from(
                old(self).source@,
                old(self).current as int,
                old(self).line as int,
            ),
    {
        let ghost src = self.source@;
        let ghost i0 = self.current as int;
        let ghost line0 = self.line as int;
        let ghost ts0 = tokens_model(self.tokens@);
        let c = self.advance();
        match c {
            '(' => {
                self.add_token(TokenType::LeftParen);
                proof {
                    lemma_scan_shift(
                        ts0,
                        plain_token(TokenType::LeftParen, src, i0, i0 + 1, line0),
                        scan_from(src, i0 + 1, line0),
                    );
                }
            },
            ')' => {
                self.add_token(TokenType::RightParen);
                proof {
                    lemma_scan_shift(
                        ts0,
                        plain_token(TokenType::RightParen, src, i0, i0 + 1, line0),
                        scan_from(src, i0 + 1, line0),
                    );
                }
            },
            '{' => {
                self.add_token(TokenType::LeftBrace);
                proof {
                    lemma_scan_shift(
                        ts0,
                        plain_token(TokenType::LeftBrace, src, i0, i0 + 1, line0),
                        scan_from(src, i0 + 1, line0),
                    );
                }
            },
            '}' => {
                self.add_token(TokenType::RightBrace);
                proof {
                    lemma_scan_shift(
                        ts0,
                        plain_token(TokenType::RightBrace, src, i0, i0 + 1, line0),
                        scan_from(src, i0 + 1, line0),
                    );
                }
            },
            ',' => {
                self.add_token(TokenType::Comma);
                proof {
                    lemma_scan_shift(
                        ts0,
                        plain_token(TokenType::Comma, src, i0, i0 + 1, line0),
                        scan_from(src, i0 + 1, line0),
                    );
                }
            },
            '.' => {
                self.add_token(TokenType::Dot);
                proof {
                    lemma_scan_shift(
                        ts0,
                        plain_token(TokenType::Dot, src, i0, i0 + 1, line0),
                        scan_from(src, i0 + 1, line0),
                    );
                }
            },
            '-' => {
                self.add_token(TokenType::Minus);
                proof {
                    lemma_scan_shift(
                        ts0,
                        plain_token(TokenType::Minus, src, i0, i0 + 1, line0),
                        scan_from(src, i0 + 1, line0),
                    );
                }
            },
            '+' => {
                self.add_token(TokenType::Plus);
                proof {
                    lemma_scan_shift(
                        ts0,
                        plain_token(TokenType::Plus, src, i0, i0 + 1, line0),
                        scan_from(src, i0 + 1, line0),
                    );
                }
            },
            ';' => {
                self.add_token(TokenType::Semicolon);
                proof {
                    lemma_scan_shift(
                        ts0,
                        plain_token(TokenType::Semicolon, src, i0, i0 + 1, line0),
                        scan_from(src, i0 + 1, line0),
                    );
                }
            },
            '*' => {
                self.add_token(TokenType::Star);
                proof {
                    lemma_scan_shift(
                        ts0,
                        plain_token(TokenType::Star, src, i0, i0 + 1, line0),
                        scan_from(src, i0 + 1, line0),
                    );
                }
            },
            '!' => {
                let two = self.token_match('=');
                let token_type = if two {
                    TokenType::BangEqual
                } else {
                    TokenType::Bang
                };
                self.add_token(token_type);
                proof {
                    lemma_scan_shift(
                        ts0,
                        plain_token(token_type, src, i0, self.current as int, line0),
                        scan_from(src, self.current as int, line0),
                    );
                }
            },
            '=' => {
                let two = self.token_match('=');
                let token_type = if two {
                    TokenType::EqualEqual
                } else {
                    TokenType::Equal
                };
                self.add_token(token_type);
                proof {
                    lemma_scan_shift(
                        ts0,
                        plain_token(token_type, src, i0, self.current as int, line0),
                        scan_from(src, self.current as int, line0),
                    );
                }
            },
            '<' => {
                let two = self.token_match('=');
                let token_type = if two {
                    TokenType::LessEqual
                } else {
                    TokenType::Less
                };
                self.add_token(token_type);
                proof {
                    lemma_scan_shift(
                        ts0,
                        plain_token(token_type, src, i0, self.current as int, line0),
                        scan_from(src, self.current as int, line0),
                    );
                }
            },
            '>' => {
                let two = self.token_match('=');
                let token_type = if two {
                    TokenType::GreaterEqual
                } else {
                    TokenType::Greater
                };
                self.add_token(token_type);
                proof {
                    lemma_scan_shift(
                        ts0,
                        plain_token(token_type, src, i0, self.current as int, line0),
                        scan_from(src, self.current as int, line0),
                    );
                }
            },
            '/' => {
                if self.token_match('/') {
                    proof {
                        lemma_comment_end(src, i0 + 2);
                    }
                    while self.peek() != '\n' && !self.is_at_end()
                        invariant
                            self.wf(),
                            self.source == old(self).source,
                            src == self.source@,
                            self.start == old(self).start,
                            self.tokens == old(self).tokens,
                            self.line as int == line0,
                            i0 + 2 <= self.current as int <= src.len(),
                            comment_end(src, self.current as int) == comment_end(src, i0 + 2),
                        decreases src.len() - self.current,
                    {
                        proof {
                            assert(self.current < src.len());
                            assert(src[self.current as int] != '\n');
                        }
                        self.advance();
                    }
                    proof {
                        assert(self.current as int == comment_end(src, i0 + 2));
                    }
                } else {
                    self.add_token(TokenType::Slash);
                    proof {
                        lemma_scan_shift(
                            ts0,
                            plain_token(TokenType::Slash, src, i0, i0 + 1, line0),
                            scan_from(src, i0 + 1, line0),
                        );
                    }
                }
            },
            ' ' => {},
            '\r' => {},
            '\t' => {},
            '\n' => {
                self.line = self.line + 1;
            },
            '"' => {
                self.string();
                proof {
                    lemma_quote_end(src, i0 + 1);
                    let close = quote_end(src, i0 + 1);
                    let new_line = line0 + newlines_in(src, i0 + 1, close);
                    if close < src.len() {
                        lemma_scan_shift(
                            ts0,
                            (TokenModel {
                                token_type: TokenType::String,
                                lexeme: src.subrange(i0, close + 1),
                                literal: Some(LiteralModel::String(src.subrange(i0 + 1, close))),
                                line: new_line,
                            }),
                            scan_from(src, close + 1, new_line),
                        );
                    }
                }
            },
            _ => {
                if is_digit_char(c) {
                    self.number();
                    proof {
                        lemma_digits_end(src, i0 + 1);
                        let ie = digits_end(src, i0);
                        if ie + 1 < src.len() && src[ie] == '.' && is_digit(src[ie + 1]) {
                            lemma_digits_end(src, ie + 1);
                        }
                        let has_frac = ie + 1 < src.len() && src[ie] == '.' && is_digit(
                            src[ie + 1],
                        );
                        let j = if has_frac {
                            digits_end(src, ie + 1)
                        } else {
                            ie
                        };
                        let fracpart = if has_frac {
                            src.subrange(ie + 1, j)
                        } else {
                            Seq::<char>::empty()
                        };
                        lemma_scan_shift(
                            ts0,
                            (TokenModel {
                                token_type: TokenType::Number,
                                lexeme: src.subrange(i0, j),
                                literal: Some(
                                    LiteralModel::Number(
                                        number_payload(src.subrange(i0, ie), fracpart),
                                    ),
                                ),
                                line: line0,
                            }),
                            scan_from(src, j, line0),
                        );
                    }
                } else if is_alpha_char(c) {
                    self.identifier();
                    proof {
                        lemma_ident_end(src, i0 + 1);
                        let j = ident_end(src, i0);
                        let kind = match keyword_type(src.subrange(i0, j)) {
                            Some(k) => k,
                            None => TokenType::Identifier,
                        };
                        lemma_scan_shift(
                            ts0,
                            plain_token(kind, src, i0, j, line0),
                            scan_from(src, j, line0),
                        );
                    }
                } else {
                    let mut msg = String::new();
                    msg.append("Unexpected character at line ");
                    let line_text = uint_string(self.line as u128);
                    msg.append(line_text.as_str());
                    self.diagnostics.push(msg);
                }
            },
        }
    }

    /// Scans the whole source: one pass to the end, then exactly one
    /// end-of-input token at the final line count.
    pub fn scan_tokens(&mut self) -> (r: Vec<Token>)
        requires
            old(self).fresh(),
            old(self).src().len() < usize::MAX,
        ensures
            tokens_model(r@) == scan_from(old(self).src(), 0, 1),
    {
        let ghost src = self.source@;
        proof {
            assert(tokens_model(self.tokens@) =~= Seq::<TokenModel>::empty());
            assert(tokens_model(self.tokens@) + scan_from(src, 0, 1) =~= scan_from(src, 0, 1));
        }
        while !self.is_at_end()
            invariant
                self.wf(),
                self.source == old(self).source,
                src == self.source@,
                src.len() < usize::MAX,
                tokens_model(self.tokens@) + scan_from(src, self.current as int, self.line as int)
                    == scan_from(src, 0, 1),
            decreases src.len() - self.current,
        {
            self.start = self.current;
            self.scan_token();
        }
        let eof = Token::new(TokenType::Eof, String::new(), None, self.line);
        proof {
            lemma_tokens_model_push(self.tokens@, eof);
            assert(scan_from(src, self.current as int, self.line as int) == seq![
                eof_token(self.line as int),
            ]);
            assert(eof@ == eof_token(self.line as int));
            assert(tokens_model(self.tokens@).push(eof@) =~= tokens_model(self.tokens@) + seq![
                eof_token(self.line as int),
            ]);
        }
        self.tokens.push(eof);
        clone_tokens(&self.tokens)
    }
}

/// Pushing one token onto the finished tokens and dropping it from the
/// remaining scan keeps the total unchanged.
proof fn lemma_scan_shift(done: Seq<TokenModel>, t: TokenModel, rest: Seq<TokenModel>)
    ensures
        done.push(t) + rest == done + (seq![t] + rest),
{
    assert(done.push(t) + rest =~= done + (seq![t] + rest));
}

/// Copies a token vector element by element.
fn clone_tokens(v: &Vec<Token>) -> (r: Vec<Token>)
    ensures
        r@ == v@,
{
    let mut out: Vec<Token> = Vec::new();
    let mut i: usize = 0;
    while i < v.len()
        invariant
            0 <= i <= v@.len(),
            out@ == v@.subrange(0, i as int),
        decreases v@.len() - i,
    {
        out.push(v[i].clone());
        i = i + 1;
        proof {
            assert(out@ =~= v@.subrange(0, i as int));
        }
    }
    proof {
        assert(out@ =~= v@);
    }
    out
}

#[via_fn]
proof fn scan_from_decreases(src: Seq<char>, i: int, line: int) {
    if 0 <= i && i < src.len() {
        let c = src[i];
        if c == '/' && i + 1 < src.len() && src[i + 1] == '/' {
            lemma_comment_end(src, i + 2);
        }
        if c == '"' {
            lemma_quote_end(src, i + 1);
        }
        if is_digit(c) {
            lemma_digits_end(src, i + 1);
            let ie = digits_end(src, i);
            if ie + 1 < src.len() && src[ie] == '.' && is_digit(src[ie + 1]) {
                lemma_digits_end(src, ie + 2);
            }
        }
        if is_alpha(c) {
            lemma_ident_end(src, i + 1);
        }
    }
}

} // verus!
