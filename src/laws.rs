//! Laws of the scanner, stated over the grammar that `Lexer::next` follows.
use vstd::prelude::*;
use vstd::string::StringSliceAdditionalSpecFns;
use vstd::utf8::{encode_scalar, encode_utf8, encode_utf8_first_scalar, has_width_1_encoding};
use crate::ascii::{char_width, is_whitespace, BACKSLASH, QUOTE, EQUAL, LESS, CARRIAGE_RETURN, LINE_FEED, TAB};
use crate::grammar::{
    lexemes_from, next_lexeme, single_kind, skip_comment, skip_trivia, starts_comment,
    string_close, Scanned,
};
use crate::lexer::{delivers, Diagnostic, ErrorKind};
use crate::token::{is_string_span, Token, TokenKind};

verus! {

proof fn lemma_blank_tail(b: Seq<u8>, p: int)
    requires
        0 <= p <= b.len(),
        forall|i: int| p <= i < b.len() ==> is_whitespace(#[trigger] b[i]),
    ensures
        skip_trivia(b, p) == b.len(),
    decreases b.len() - p,
{
    if p < b.len() {
        lemma_blank_tail(b, p + 1);
    }
}

/// A buffer of whitespace alone yields nothing: the first pull is already
/// the end of the input, with no token and no diagnostic.
pub proof fn law_whitespace_yields_nothing(input: &str)
    requires
        forall|i: int| 0 <= i < input.spec_bytes().len() ==> is_whitespace(#[trigger] input.spec_bytes()[i]),
    ensures
        next_lexeme(input.spec_bytes(), 0) is None,
        lexemes_from(input.spec_bytes(), 0) == Seq::<Scanned>::empty(),
{
    lemma_blank_tail(input.spec_bytes(), 0);
}

/// A buffer that holds one punctuation byte yields exactly one token, of the
/// kind that byte stands for, spanning that byte and carrying no payload.
pub proof fn law_single_punctuation(b: Seq<u8>, c: u8)
    requires
        b == seq![c],
        single_kind(c) is Some,
    ensures
        lexemes_from(b, 0) == seq![Scanned::Token { kind: single_kind(c)->Some_0, start: 0, end: 1 }],
{
    assert(b[0] == c);
    assert(!is_whitespace(c));
    assert(skip_trivia(b, 0) == 0);
    assert(skip_trivia(b, 1) == 1);
    assert(next_lexeme(b, 1) is None);
    assert(lexemes_from(b, 1) == Seq::<Scanned>::empty());
    assert(lexemes_from(b, 0) =~= seq![Scanned::Token { kind: single_kind(c)->Some_0, start: 0, end: 1 }]);
}

/// `<=` is one `LessEqual` token.
pub proof fn law_less_equal(b: Seq<u8>)
    requires
        b == seq![LESS, EQUAL],
    ensures
        lexemes_from(b, 0) == seq![Scanned::Token { kind: TokenKind::LessEqual, start: 0, end: 2 }],
{
    assert(b[0] == LESS && b[1] == EQUAL);
    assert(skip_trivia(b, 0) == 0);
    assert(skip_trivia(b, 2) == 2);
    assert(lexemes_from(b, 2) == Seq::<Scanned>::empty());
    assert(lexemes_from(b, 0) =~= seq![Scanned::Token { kind: TokenKind::LessEqual, start: 0, end: 2 }]);
}

/// `<` before anything but `=` is a `Less` token of one byte, and scanning
/// goes on at the very next byte, which the lookahead left unconsumed.
pub proof fn law_less_then_rest(b: Seq<u8>)
    requires
        b.len() >= 2,
        b[0] == LESS,
        b[1] != EQUAL,
    ensures
        next_lexeme(b, 0) == Some((Scanned::Token { kind: TokenKind::Less, start: 0, end: 1 }, 1int)),
        lexemes_from(b, 0) == seq![Scanned::Token { kind: TokenKind::Less, start: 0, end: 1 }] + lexemes_from(b, 1),
{
    assert(skip_trivia(b, 0) == 0);
}

/// An unterminated string is reported up to the end of the buffer, wherever
/// it starts.
pub proof fn law_unterminated_string_reaches_end(b: Seq<u8>, p: int)
    requires
        next_lexeme(b, p) matches Some((Scanned::Error { kind: ErrorKind::UnterminatedString, .. }, _)),
    ensures
        next_lexeme(b, p) matches Some((Scanned::Error { end, .. }, after)) && end == b.len() && after == b.len(),
{
}

/// Spans count bytes, not characters: after a character `c` outside ASCII,
/// a control character `d` is reported at the byte offset equal to the
/// length of the UTF-8 encoding of `c`. Each of the two is an unexpected
/// character of its own, and nothing else comes out.
pub proof fn law_spans_count_bytes(input: &str, c: char, d: char)
    requires
        input@ == seq![c, d],
        c as u32 >= 0x80,
        (d as u32) < 0x20,
        d as u32 != TAB as u32,
        d as u32 != LINE_FEED as u32,
        d as u32 != CARRIAGE_RETURN as u32,
    ensures
        ({
            let w = encode_scalar(c as u32).len() as int;
            lexemes_from(input.spec_bytes(), 0) == seq![
                Scanned::Error { kind: ErrorKind::UnexpectedCharacter, start: 0, end: w },
                Scanned::Error { kind: ErrorKind::UnexpectedCharacter, start: w, end: w + 1 },
            ]
        }),
{
    let b = input.spec_bytes();
    let w = encode_scalar(c as u32).len() as int;
    let x = d as u32;
    assert(has_width_1_encoding(x));
    assert(((x & 0x7f) as u8) as u32 == x) by (bit_vector)
        requires x < 0x20;
    assert(input@.drop_first() =~= seq![d]);
    assert(seq![d].drop_first() =~= Seq::<char>::empty());
    assert(encode_utf8(seq![d]) == encode_scalar(x) + encode_utf8(Seq::<char>::empty()));
    assert(encode_utf8(seq![d]) =~= seq![(x & 0x7f) as u8]);
    assert(b == encode_scalar(c as u32) + encode_utf8(seq![d]));
    encode_utf8_first_scalar(input@);
    assert(b.subrange(0, b.len() as int) =~= b);
    assert(2 <= w <= 4);
    assert(b.len() == w + 1);
    assert(b[w] == (x & 0x7f) as u8);
    assert(b[0] >= 0x80);
    assert(skip_trivia(b, 0) == 0);
    assert(skip_trivia(b, w) == w);
    assert(b.subrange(w, b.len() as int) =~= seq![b[w]]);
    assert(skip_trivia(b, w + 1) == w + 1);
    assert(char_width(b, 0) == w);
    assert(char_width(b, w) == 1);
    assert(next_lexeme(b, 0) == Some(
        (Scanned::Error { kind: ErrorKind::UnexpectedCharacter, start: 0, end: w }, w),
    ));
    assert(next_lexeme(b, w) == Some(
        (Scanned::Error { kind: ErrorKind::UnexpectedCharacter, start: w, end: w + 1 }, w + 1),
    ));
    assert(lexemes_from(b, w + 1) == Seq::<Scanned>::empty());
    assert(lexemes_from(b, w) =~= seq![
        Scanned::Error { kind: ErrorKind::UnexpectedCharacter, start: w, end: w + 1 },
    ]);
    assert(lexemes_from(b, 0) =~= seq![
        Scanned::Error { kind: ErrorKind::UnexpectedCharacter, start: 0, end: w },
        Scanned::Error { kind: ErrorKind::UnexpectedCharacter, start: w, end: w + 1 },
    ]);
}

proof fn lemma_skip_moves_forward(b: Seq<u8>, i: int, in_comment: bool)
    requires
        0 <= i,
    ensures
        in_comment ==> skip_comment(b, i) >= i,
        !in_comment ==> skip_trivia(b, i) >= i,
    decreases b.len() - i, if in_comment { 1int } else { 0int },
{
    if i < b.len() {
        if in_comment {
            if b[i] == LINE_FEED {
                lemma_skip_moves_forward(b, i, false);
            } else {
                lemma_skip_moves_forward(b, i + 1, true);
            }
        } else if is_whitespace(b[i]) {
            lemma_skip_moves_forward(b, i + 1, false);
        } else if starts_comment(b, i) {
            lemma_skip_moves_forward(b, i + 2, true);
        }
    }
}

proof fn lemma_string_close(b: Seq<u8>, i: int)
    requires
        0 <= i,
    ensures
        string_close(b, i) < b.len() ==> i <= string_close(b, i) && b[string_close(b, i)] == QUOTE,
    decreases b.len() - i,
{
    if 0 <= i < b.len() && b[i] != QUOTE {
        if b[i] == BACKSLASH {
            if i + 1 < b.len() {
                lemma_string_close(b, i + 2);
            }
        } else {
            lemma_string_close(b, i + 1);
        }
    }
}

/// Every string token that a pull delivers spans a quote, raw text and a
/// quote, so its span can be handed to `decode_string`.
pub proof fn law_string_tokens_span_literals(b: Seq<u8>, p: int)
    requires
        0 <= p,
        next_lexeme(b, p) matches Some((Scanned::Token { kind: TokenKind::String, .. }, _)),
    ensures
        next_lexeme(b, p) matches Some((Scanned::Token { start, end, .. }, _)) && is_string_span(b, start, end),
{
    lemma_skip_moves_forward(b, p, false);
    let q = skip_trivia(b, p);
    assert(0 <= q < b.len() && b[q] == QUOTE);
    lemma_string_close(b, q + 1);
}

/// Two outcomes that agree on what a caller can observe: the same token kind
/// and payload bytes, or the same diagnostic.
pub open spec fn same_outcome(x: Result<Token, Diagnostic>, y: Result<Token, Diagnostic>) -> bool {
    match (x, y) {
        (Ok(s), Ok(t)) => s.spec_kind() == t.spec_kind() && s.payload() == t.payload(),
        (Err(d), Err(e)) => d.kind == e.kind && d.start == e.start && d.end == e.end && d.source == e.source,
        _ => false,
    }
}

/// What a full pass over `input` hands out, as `tokenize` states it.
pub open spec fn full_pass<'a>(input: &'a str, r: Seq<Result<Token<'a>, Diagnostic<'a>>>) -> bool {
    &&& r.len() == lexemes_from(input.spec_bytes(), 0).len()
    &&& forall|i: int| 0 <= i < r.len() ==> delivers(#[trigger] r[i], input.spec_bytes(), input, lexemes_from(input.spec_bytes(), 0)[i])
}

/// Two independent passes over the same buffer produce the same sequence:
/// equally long, and equal outcome for outcome, in order.
pub proof fn law_rescanning_is_deterministic<'a>(
    input: &'a str,
    first: Seq<Result<Token<'a>, Diagnostic<'a>>>,
    second: Seq<Result<Token<'a>, Diagnostic<'a>>>,
)
    requires
        full_pass(input, first),
        full_pass(input, second),
    ensures
        first.len() == second.len(),
        forall|i: int| 0 <= i < first.len() ==> same_outcome(#[trigger] first[i], second[i]),
{
    assert forall|i: int| 0 <= i < first.len() implies same_outcome(#[trigger] first[i], second[i]) by {
        assert(delivers(first[i], input.spec_bytes(), input, lexemes_from(input.spec_bytes(), 0)[i]));
        assert(delivers(second[i], input.spec_bytes(), input, lexemes_from(input.spec_bytes(), 0)[i]));
    }
}

} // verus!
