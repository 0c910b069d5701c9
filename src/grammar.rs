//! The lexical grammar as spec functions over the source's UTF-8 bytes.
use vstd::prelude::*;
use crate::ascii::{
    char_width, is_alpha, is_alphanumeric, is_digit, is_whitespace, BACKSLASH, BANG, COMMA, DOT,
    EQUAL, GREATER, LEFT_BRACE, LEFT_PAREN, LESS, LINE_FEED, MINUS, PLUS, QUOTE, RIGHT_BRACE,
    RIGHT_PAREN, SEMICOLON, SLASH, STAR,
};
use crate::lexer::ErrorKind;
use crate::token::{keyword_kind, TokenKind};

verus! {

/// The outcome of one pull, with the byte span `[start, end)` of the whole
/// lexeme (quotes included for a string) or of the offending text.
pub ghost enum Scanned {
    Token { kind: TokenKind, start: int, end: int },
    Error { kind: ErrorKind, start: int, end: int },
}

/// `//` at `i`: the start of a line comment.
pub open spec fn starts_comment(b: Seq<u8>, i: int) -> bool {
    0 <= i && i + 1 < b.len() && b[i] == SLASH && b[i + 1] == SLASH
}

/// First position at or after `i` that holds neither whitespace nor part of
/// a line comment.
pub open spec fn skip_trivia(b: Seq<u8>, i: int) -> int
    decreases b.len() - i, 0int,
{
    if i < 0 || i >= b.len() {
        i
    } else if is_whitespace(b[i]) {
        skip_trivia(b, i + 1)
    } else if starts_comment(b, i) {
        skip_comment(b, i + 2)
    } else {
        i
    }
}

/// Inside a line comment at `i`: the comment runs up to the next line feed.
pub open spec fn skip_comment(b: Seq<u8>, i: int) -> int
    decreases b.len() - i, 1int,
{
    if i < 0 || i >= b.len() {
        i
    } else if b[i] == LINE_FEED {
        skip_trivia(b, i)
    } else {
        skip_comment(b, i + 1)
    }
}

/// End of the run of digits that starts at `i`.
pub open spec fn digits_end(b: Seq<u8>, i: int) -> int
    decreases b.len() - i,
{
    if 0 <= i < b.len() && is_digit(b[i]) {
        digits_end(b, i + 1)
    } else {
        i
    }
}

/// End of a number literal that starts at `i`: digits, then a dot and digits
/// only where at least one digit follows the dot.
pub open spec fn number_end(b: Seq<u8>, i: int) -> int {
    let d = digits_end(b, i);
    if d + 1 < b.len() && b[d] == DOT && is_digit(b[d + 1]) {
        digits_end(b, d + 1)
    } else {
        d
    }
}

/// End of the run of letters, digits and underscores that starts at `i`.
pub open spec fn word_end(b: Seq<u8>, i: int) -> int
    decreases b.len() - i,
{
    if 0 <= i < b.len() && is_alphanumeric(b[i]) {
        word_end(b, i + 1)
    } else {
        i
    }
}

/// Position of the quote that closes a string whose text starts at `i`, or
/// the length of `b` when none does. A backslash takes the byte after it
/// along, so `\"` does not close the string.
pub open spec fn string_close(b: Seq<u8>, i: int) -> int
    decreases b.len() - i,
{
    if i < 0 || i >= b.len() {
        b.len() as int
    } else if b[i] == QUOTE {
        i
    } else if b[i] == BACKSLASH {
        if i + 1 >= b.len() {
            b.len() as int
        } else {
            string_close(b, i + 2)
        }
    } else {
        string_close(b, i + 1)
    }
}

/// The token that the one byte `c` stands for on its own, if it does.
pub open spec fn single_kind(c: u8) -> Option<TokenKind> {
    if c == LEFT_PAREN {
        Some(TokenKind::LeftParen)
    } else if c == RIGHT_PAREN {
        Some(TokenKind::RightParen)
    } else if c == LEFT_BRACE {
        Some(TokenKind::LeftBrace)
    } else if c == RIGHT_BRACE {
        Some(TokenKind::RightBrace)
    } else if c == SEMICOLON {
        Some(TokenKind::Semicolon)
    } else if c == COMMA {
        Some(TokenKind::Comma)
    } else if c == PLUS {
        Some(TokenKind::Plus)
    } else if c == MINUS {
        Some(TokenKind::Minus)
    } else if c == STAR {
        Some(TokenKind::Star)
    } else if c == SLASH {
        Some(TokenKind::Slash)
    } else if c == DOT {
        Some(TokenKind::Dot)
    } else {
        None
    }
}

/// For a byte that may start a two-byte operator: the kinds without and with
/// a following `=`.
pub open spec fn pair_kinds(c: u8) -> Option<(TokenKind, TokenKind)> {
    if c == LESS {
        Some((TokenKind::Less, TokenKind::LessEqual))
    } else if c == GREATER {
        Some((TokenKind::Greater, TokenKind::GreaterEqual))
    } else if c == BANG {
        Some((TokenKind::Bang, TokenKind::BangEqual))
    } else if c == EQUAL {
        Some((TokenKind::Equal, TokenKind::EqualEqual))
    } else {
        None
    }
}

/// The lexeme that starts at `q`, where `q` holds neither whitespace nor a
/// comment, and the position after it.
pub open spec fn lexeme_at(b: Seq<u8>, q: int) -> (Scanned, int) {
    let c = b[q];
    if single_kind(c) is Some {
        (Scanned::Token { kind: single_kind(c)->Some_0, start: q, end: q + 1 }, q + 1)
    } else if pair_kinds(c) is Some {
        if q + 1 < b.len() && b[q + 1] == EQUAL {
            (Scanned::Token { kind: pair_kinds(c)->Some_0.1, start: q, end: q + 2 }, q + 2)
        } else {
            (Scanned::Token { kind: pair_kinds(c)->Some_0.0, start: q, end: q + 1 }, q + 1)
        }
    } else if c == QUOTE {
        let close = string_close(b, q + 1);
        if close < b.len() {
            (Scanned::Token { kind: TokenKind::String, start: q, end: close + 1 }, close + 1)
        } else {
            (
                Scanned::Error {
                    kind: ErrorKind::UnterminatedString,
                    start: q,
                    end: b.len() as int,
                },
                b.len() as int,
            )
        }
    } else if is_digit(c) {
        let e = number_end(b, q);
        (Scanned::Token { kind: TokenKind::Number, start: q, end: e }, e)
    } else if is_alpha(c) {
        let e = word_end(b, q);
        (Scanned::Token { kind: keyword_kind(b.subrange(q, e)), start: q, end: e }, e)
    } else {
        let e = q + char_width(b, q);
        (Scanned::Error { kind: ErrorKind::UnexpectedCharacter, start: q, end: e }, e)
    }
}

/// One pull from position `p`: `None` at the end of the input, else the next
/// lexeme and the position after it.
pub open spec fn next_lexeme(b: Seq<u8>, p: int) -> Option<(Scanned, int)> {
    let q = skip_trivia(b, p);
    if q >= b.len() {
        None
    } else {
        Some(lexeme_at(b, q))
    }
}

/// The payload bytes that a token of kind `k` spanning `[start, end)` carries.
pub open spec fn payload_of(b: Seq<u8>, k: TokenKind, start: int, end: int) -> Seq<u8> {
    if k == TokenKind::String {
        b.subrange(start + 1, end - 1)
    } else if k == TokenKind::Ident || k == TokenKind::Number {
        b.subrange(start, end)
    } else {
        seq![]
    }
}

/// All outcomes of pulling from `p` until the end of the input.
pub open spec fn lexemes_from(b: Seq<u8>, p: int) -> Seq<Scanned>
    decreases b.len() - p,
{
    match next_lexeme(b, p) {
        None => seq![],
        Some((s, next)) => if p < next <= b.len() {
            seq![s] + lexemes_from(b, next)
        } else {
            seq![s]
        },
    }
}

} // verus!
