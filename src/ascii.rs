//! Byte classes of the language and facts about UTF-8 character boundaries.
use vstd::prelude::*;
use vstd::string::StringSliceAdditionalSpecFns;
use vstd::utf8::*;

verus! {

broadcast use {is_char_boundary_iff_not_is_continuation_byte, is_char_boundary_start_end_of_seq};

pub const TAB: u8 = 0x09;
pub const LINE_FEED: u8 = 0x0a;
pub const CARRIAGE_RETURN: u8 = 0x0d;
pub const SPACE: u8 = 0x20;
pub const BANG: u8 = 0x21;
pub const QUOTE: u8 = 0x22;
pub const LEFT_PAREN: u8 = 0x28;
pub const RIGHT_PAREN: u8 = 0x29;
pub const STAR: u8 = 0x2a;
pub const PLUS: u8 = 0x2b;
pub const COMMA: u8 = 0x2c;
pub const MINUS: u8 = 0x2d;
pub const DOT: u8 = 0x2e;
pub const SLASH: u8 = 0x2f;
pub const SEMICOLON: u8 = 0x3b;
pub const LESS: u8 = 0x3c;
pub const EQUAL: u8 = 0x3d;
pub const GREATER: u8 = 0x3e;
pub const BACKSLASH: u8 = 0x5c;
pub const UNDERSCORE: u8 = 0x5f;
pub const LOWER_N: u8 = 0x6e;
pub const LOWER_R: u8 = 0x72;
pub const LOWER_T: u8 = 0x74;
pub const LEFT_BRACE: u8 = 0x7b;
pub const RIGHT_BRACE: u8 = 0x7d;

pub open spec fn is_whitespace(c: u8) -> bool {
    c == SPACE || c == TAB || c == CARRIAGE_RETURN || c == LINE_FEED
}

pub open spec fn is_digit(c: u8) -> bool {
    0x30 <= c <= 0x39
}

/// ASCII letter or underscore: the bytes that may start an identifier.
pub open spec fn is_alpha(c: u8) -> bool {
    (0x41 <= c <= 0x5a) || (0x61 <= c <= 0x7a) || c == UNDERSCORE
}

pub open spec fn is_alphanumeric(c: u8) -> bool {
    is_alpha(c) || is_digit(c)
}

pub fn whitespace(c: u8) -> (r: bool)
    ensures
        r == is_whitespace(c),
{
    c == SPACE || c == TAB || c == CARRIAGE_RETURN || c == LINE_FEED
}

pub fn digit(c: u8) -> (r: bool)
    ensures
        r == is_digit(c),
{
    0x30 <= c && c <= 0x39
}

pub fn alpha(c: u8) -> (r: bool)
    ensures
        r == is_alpha(c),
{
    (0x41 <= c && c <= 0x5a) || (0x61 <= c && c <= 0x7a) || c == UNDERSCORE
}

pub fn alphanumeric(c: u8) -> (r: bool)
    ensures
        r == is_alphanumeric(c),
{
    alpha(c) || digit(c)
}

/// Number of bytes in the UTF-8 encoding of the character that starts at `i`.
pub open spec fn char_width(b: Seq<u8>, i: int) -> int {
    length_of_first_scalar(b.subrange(i, b.len() as int))
}

/// Stepping over one whole character from a character boundary lands on the
/// next boundary, inside the buffer; an ASCII byte is a character of its own.
pub proof fn lemma_char_step(b: Seq<u8>, i: int)
    requires
        valid_utf8(b),
        0 <= i < b.len(),
        is_char_boundary(b, i),
    ensures
        1 <= char_width(b, i),
        i + char_width(b, i) <= b.len(),
        is_char_boundary(b, i + char_width(b, i)),
        b[i] < 0x80 ==> char_width(b, i) == 1,
{
    let rest = b.subrange(i, b.len() as int);
    valid_utf8_split(b, i);
    assert(valid_first_scalar(rest) && valid_utf8(pop_first_scalar(rest)));
    let w = char_width(b, i);
    assert(rest[0] == b[i]);
    if i + w < b.len() {
        let popped = pop_first_scalar(rest);
        assert(popped.len() > 0);
        assert(valid_first_scalar(popped));
        assert(popped[0] == b[i + w]);
        assert(!is_continuation_byte(b[i + w]));
    }
}

/// A character that starts before a boundary ends at or before it.
pub proof fn lemma_char_within(b: Seq<u8>, i: int, h: int)
    requires
        valid_utf8(b),
        0 <= i < h <= b.len(),
        is_char_boundary(b, i),
        is_char_boundary(b, h),
    ensures
        i + char_width(b, i) <= h,
{
    lemma_char_step(b, i);
    let w = char_width(b, i);
    if h < i + w {
        let rest = b.subrange(i, b.len() as int);
        valid_utf8_split(b, i);
        assert(valid_first_scalar(rest));
        assert(rest[h - i] == b[h]);
        assert(is_continuation_byte(b[h]));
    }
}

/// Any position that holds an ASCII byte is a character boundary.
pub proof fn lemma_ascii_boundary(b: Seq<u8>, i: int)
    requires
        valid_utf8(b),
        0 <= i < b.len(),
        b[i] < 0x80,
    ensures
        is_char_boundary(b, i),
        is_char_boundary(b, i + 1),
{
    assert(!is_continuation_byte(b[i]));
    lemma_char_step(b, i);
}

/// Width of the character whose leading byte is `c`, read from the leading byte.
pub fn leading_width(b: &[u8], i: usize) -> (w: usize)
    requires
        valid_utf8(b@),
        i < b@.len(),
        is_char_boundary(b@, i as int),
    ensures
        w as int == char_width(b@, i as int),
        i + w <= b@.len(),
        is_char_boundary(b@, i + w),
{
    proof {
        lemma_char_step(b@, i as int);
        valid_utf8_split(b@, i as int);
        assert(b@.subrange(i as int, b@.len() as int)[0] == b@[i as int]);
    }
    let c = b[i];
    if c < 0x80 {
        1
    } else if c < 0xe0 {
        2
    } else if c < 0xf0 {
        3
    } else {
        4
    }
}

/// The bytes `[a, e)` of `s`, borrowed, where both ends are character boundaries.
pub fn byte_slice<'a>(s: &'a str, a: usize, e: usize) -> (r: &'a str)
    requires
        a <= e <= s.spec_bytes().len(),
        is_char_boundary(s.spec_bytes(), a as int),
        is_char_boundary(s.spec_bytes(), e as int),
    ensures
        r.spec_bytes() == s.spec_bytes().subrange(a as int, e as int),
{
    let b = Ghost(s.spec_bytes());
    proof {
        encode_utf8_valid_utf8(s@);
        valid_utf8_split(b@, a as int);
    }
    let tail = s.split_at(a).1;
    proof {
        let t = tail.spec_bytes();
        assert(t == b@.subrange(a as int, b@.len() as int));
        assert(valid_utf8(t));
        if e < b@.len() {
            assert(!is_continuation_byte(b@[e as int]));
            assert(t[e - a] == b@[e as int]);
            assert(!is_continuation_byte(t[e - a]));
        } else {
            assert(e - a == t.len());
        }
    }
    let r = tail.split_at(e - a).0;
    proof {
        assert(r.spec_bytes() =~= b@.subrange(a as int, e as int));
    }
    r
}

/// Encoding distributes over concatenation.
pub proof fn lemma_encode_concat(x: Seq<char>, y: Seq<char>)
    ensures
        encode_utf8(x + y) == encode_utf8(x) + encode_utf8(y),
    decreases x.len(),
{
    if x.len() == 0 {
        assert(x + y =~= y);
        assert(encode_utf8(x) + encode_utf8(y) =~= encode_utf8(y));
    } else {
        lemma_encode_concat(x.drop_first(), y);
        assert((x + y).drop_first() =~= x.drop_first() + y);
        assert((x + y)[0] == x[0]);
        assert(encode_utf8(x + y) =~= encode_utf8(x) + encode_utf8(y));
    }
}

/// An ASCII character is encoded as the one byte of its value.
pub proof fn lemma_encode_ascii(ch: char)
    requires
        (ch as u32) < 0x80,
    ensures
        encode_utf8(seq![ch]) == seq![(ch as u32) as u8],
{
    let x = ch as u32;
    assert(((x & 0x7f) as u8) == x as u8) by (bit_vector)
        requires
            x < 0x80,
    ;
    assert(has_width_1_encoding(x));
    assert(seq![ch].drop_first() =~= Seq::<char>::empty());
    assert(seq![ch][0] == ch);
    assert(encode_utf8(Seq::<char>::empty()) == Seq::<u8>::empty());
    assert(encode_scalar(x) == seq![(x & 0x7f) as u8]);
    assert(encode_utf8(seq![ch]) =~= seq![(x & 0x7f) as u8]);
}

} // verus!
