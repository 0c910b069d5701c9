//! The scanner: a cursor over a borrowed buffer that yields one lexeme per call.
use vstd::prelude::*;
use vstd::string::{StringExecFns, StringSliceAdditionalSpecFns};
use vstd::utf8::{
    decode_utf8, encode_utf8_decode_utf8, encode_utf8_valid_utf8, is_char_boundary, valid_utf8,
};
use crate::ascii::{
    alpha, alphanumeric, byte_slice, digit, is_alphanumeric, is_digit, lemma_ascii_boundary, leading_width,
    whitespace, BACKSLASH, BANG, COMMA, DOT, EQUAL, GREATER, LEFT_BRACE, LEFT_PAREN, LESS,
    LINE_FEED, MINUS, PLUS, QUOTE, RIGHT_BRACE, RIGHT_PAREN, SEMICOLON, SLASH, STAR,
};
use crate::grammar::{
    digits_end, lexemes_from, next_lexeme, pair_kinds, payload_of, single_kind, skip_comment,
    skip_trivia, string_close, word_end, Scanned,
};
use crate::token::{keyword_kind, Token, TokenKind};

verus! {

broadcast use {
    vstd::utf8::is_char_boundary_iff_not_is_continuation_byte,
    vstd::utf8::is_char_boundary_start_end_of_seq,
};

/// What went wrong at a span of the source.
#[derive(Clone, Copy, Debug, PartialEq, Eq, Structural)]
pub enum ErrorKind {
    UnexpectedCharacter,
    UnterminatedString,
    MalformedEscapeSequence,
    /// Reserved for a stricter number grammar: a run of digits, with an
    /// optional fraction, is always a valid number, so the scanner never
    /// reports it.
    MalformedNumber,
}

/// An error anchored at the byte span `[start, end)` of `source`.
#[derive(Clone, Copy, Debug, PartialEq)]
pub struct Diagnostic<'a> {
    pub kind: ErrorKind,
    pub start: usize,
    pub end: usize,
    pub source: &'a str,
}

impl<'a> Diagnostic<'a> {
    /// The span lies inside the source and starts and ends on character
    /// boundaries, so that it can be cut out of the source text.
    pub open spec fn spans_text(&self) -> bool {
        &&& self.start <= self.end <= self.source.spec_bytes().len()
        &&& is_char_boundary(self.source.spec_bytes(), self.start as int)
        &&& is_char_boundary(self.source.spec_bytes(), self.end as int)
    }

    /// The characters under the span.
    pub open spec fn spec_snippet(&self) -> Seq<char> {
        decode_utf8(self.source.spec_bytes().subrange(self.start as int, self.end as int))
    }

    pub open spec fn spec_message(&self) -> Seq<char> {
        match self.kind {
            ErrorKind::UnexpectedCharacter => "unexpected character '"@ + self.spec_snippet() + "'"@,
            ErrorKind::UnterminatedString => "Unterminated string"@,
            ErrorKind::MalformedEscapeSequence => "Malformed escape sequence"@,
            ErrorKind::MalformedNumber => "Malformed number"@,
        }
    }

    /// The human-readable message; for an unexpected character it quotes
    /// the character itself.
    pub fn message(&self) -> (r: String)
        requires
            self.spans_text(),
        ensures
            r@ == self.spec_message(),
    {
        match self.kind {
            ErrorKind::UnexpectedCharacter => {
                let piece = byte_slice(self.source, self.start, self.end);
                proof {
                    encode_utf8_decode_utf8(piece@);
                }
                let mut r = <String as StringExecFns>::from_str("unexpected character '");
                r.append(piece);
                r.append("'");
                r
            },
            ErrorKind::UnterminatedString => <String as StringExecFns>::from_str("Unterminated string"),
            ErrorKind::MalformedEscapeSequence => <String as StringExecFns>::from_str(
                "Malformed escape sequence",
            ),
            ErrorKind::MalformedNumber => <String as StringExecFns>::from_str("Malformed number"),
        }
    }
}

/// True when `r` is what the scanner hands out for the outcome `s` on the
/// buffer `src`, whose bytes are `b`.
pub open spec fn delivers(r: Result<Token, Diagnostic>, b: Seq<u8>, src: &str, s: Scanned) -> bool {
    match s {
        Scanned::Token { kind, start, end } => {
            &&& r is Ok
            &&& r->Ok_0.spec_kind() == kind
            &&& r->Ok_0.payload() == payload_of(b, kind, start, end)
        },
        Scanned::Error { kind, start, end } => {
            &&& r is Err
            &&& r->Err_0.kind == kind
            &&& r->Err_0.start == start
            &&& r->Err_0.end == end
            &&& r->Err_0.source == src
            &&& r->Err_0.spans_text()
        },
    }
}

/// Cursor over a borrowed buffer: the whole text, the part not scanned yet,
/// and the byte offset where that part starts.
pub struct Lexer<'a> {
    whole: &'a str,
    rest: &'a str,
    byte: usize,
}

impl<'a> Lexer<'a> {
    /// The buffer being scanned.
    pub closed spec fn source(&self) -> &'a str {
        self.whole
    }

    /// The UTF-8 bytes of the buffer.
    pub open spec fn bytes(&self) -> Seq<u8> {
        self.source().spec_bytes()
    }

    /// Byte offset of the cursor.
    pub closed spec fn pos(&self) -> int {
        self.byte as int
    }

    /// The offset sits on a character boundary, and the unscanned part is
    /// exactly the bytes from the offset on, so that the offset equals the
    /// length of the whole minus the length of the rest.
    pub closed spec fn wf(&self) -> bool {
        &&& self.byte <= self.whole.spec_bytes().len()
        &&& is_char_boundary(self.whole.spec_bytes(), self.byte as int)
        &&& self.rest.spec_bytes() == self.whole.spec_bytes().subrange(
            self.byte as int,
            self.whole.spec_bytes().len() as int,
        )
    }

    pub fn new(input: &'a str) -> (r: Self)
        ensures
            r.wf(),
            r.source() == input,
            r.pos() == 0,
    {
        proof {
            encode_utf8_valid_utf8(input@);
            assert(input.spec_bytes().subrange(0, input.spec_bytes().len() as int)
                =~= input.spec_bytes());
        }
        Lexer { whole: input, rest: input, byte: 0 }
    }

    /// The part of the buffer that is not scanned yet.
    pub fn remainder(&self) -> (r: &'a str)
        requires
            self.wf(),
        ensures
            r.spec_bytes() == self.bytes().subrange(self.pos(), self.bytes().len() as int),
    {
        self.rest
    }

    /// Byte offset of the cursor from the start of the buffer.
    pub fn offset(&self) -> (r: usize)
        ensures
            r == self.pos(),
    {
        self.byte
    }

    fn seek(&mut self, p: usize)
        requires
            old(self).wf(),
            p <= old(self).bytes().len(),
            is_char_boundary(old(self).bytes(), p as int),
        ensures
            final(self).wf(),
            final(self).source() == old(self).source(),
            final(self).pos() == p,
    {
        self.byte = p;
        self.rest = self.whole.split_at(p).1;
    }

    fn slice(&self, s: usize, e: usize) -> (r: &'a str)
        requires
            self.wf(),
            s <= e <= self.bytes().len(),
            is_char_boundary(self.bytes(), s as int),
            is_char_boundary(self.bytes(), e as int),
        ensures
            r.spec_bytes() == self.bytes().subrange(s as int, e as int),
    {
        byte_slice(self.whole, s, e)
    }

    /// The word `[s, e)` as a keyword, or as an identifier when it spells none.
    fn word(&self, s: usize, e: usize) -> (t: Token<'a>)
        requires
            self.wf(),
            s <= e <= self.bytes().len(),
            is_char_boundary(self.bytes(), s as int),
            is_char_boundary(self.bytes(), e as int),
        ensures
            t.spec_kind() == keyword_kind(self.bytes().subrange(s as int, e as int)),
            t.payload() == payload_of(self.bytes(), t.spec_kind(), s as int, e as int),
    {
        let b = self.whole.as_bytes();
        if spells(b, s, e, "and") {
            Token::And
        } else if spells(b, s, e, "class") {
            Token::Class
        } else if spells(b, s, e, "else") {
            Token::Else
        } else if spells(b, s, e, "false") {
            Token::False
        } else if spells(b, s, e, "for") {
            Token::For
        } else if spells(b, s, e, "fun") {
            Token::Fun
        } else if spells(b, s, e, "if") {
            Token::If
        } else if spells(b, s, e, "nil") {
            Token::Nil
        } else if spells(b, s, e, "or") {
            Token::Or
        } else if spells(b, s, e, "return") {
            Token::Return
        } else if spells(b, s, e, "super") {
            Token::Super
        } else if spells(b, s, e, "this") {
            Token::This
        } else if spells(b, s, e, "true") {
            Token::True
        } else if spells(b, s, e, "var") {
            Token::Var
        } else if spells(b, s, e, "while") {
            Token::While
        } else {
            Token::Ident(self.slice(s, e))
        }
    }
}

impl<'a> Lexer<'a> {
    /// Pulls the next lexeme: `None` once only whitespace and comments are
    /// left, else a token or a diagnostic. Whitespace and `//` comments up to
    /// the end of their line are skipped first; the cursor ends just past the
    /// lexeme. Errors do not stop the scanner: the next call goes on from
    /// there.
    pub fn next(&mut self) -> (r: Option<Result<Token<'a>, Diagnostic<'a>>>)
        requires
            old(self).wf(),
        ensures
            final(self).wf(),
            final(self).source() == old(self).source(),
            match next_lexeme(old(self).bytes(), old(self).pos()) {
                None => r is None && final(self).pos() == old(self).bytes().len(),
                Some((s, after)) => {
                    &&& r is Some
                    &&& old(self).pos() < after
                    &&& final(self).pos() == after
                    &&& delivers(r->Some_0, old(self).bytes(), old(self).source(), s)
                },
            },
    {
        let b = self.whole.as_bytes();
        let n = b.len();
        proof {
            encode_utf8_valid_utf8(self.whole@);
        }
        let ghost start = self.byte as int;
        let ghost target = skip_trivia(b@, start);
        let mut i = self.byte;
        let mut in_comment = false;
        loop
            invariant
                b@ == self.bytes(),
                valid_utf8(b@),
                n == b@.len(),
                self.wf(),
                self.pos() == start,
                start <= i <= n,
                (if in_comment {
                    skip_comment(b@, i as int)
                } else {
                    skip_trivia(b@, i as int)
                }) == target,
                !in_comment ==> is_char_boundary(b@, i as int),
            ensures
                i < n ==> !in_comment && skip_trivia(b@, i as int) == i,
            decreases n - i,
        {
            if i >= n {
                break;
            }
            let c = b[i];
            if in_comment {
                if c == LINE_FEED {
                    proof {
                        lemma_ascii_boundary(b@, i as int);
                        assert(skip_trivia(b@, i as int) == skip_trivia(b@, i + 1));
                    }
                    in_comment = false;
                }
                i = i + 1;
            } else if whitespace(c) {
                proof {
                    lemma_ascii_boundary(b@, i as int);
                }
                i = i + 1;
            } else if c == SLASH && i + 1 < n && b[i + 1] == SLASH {
                in_comment = true;
                i = i + 2;
            } else {
                break;
            }
        }
        if i >= n {
            self.seek(n);
            return None;
        }
        let q = i;
        assert(q == target);
        let c = b[q];
        if let Some(t) = single(c) {
            proof {
                lemma_ascii_boundary(b@, q as int);
            }
            self.seek(q + 1);
            return Some(Ok(t));
        }
        let with_equal = q + 1 < n && b[q + 1] == EQUAL;
        if let Some(t) = pair(c, with_equal) {
            proof {
                lemma_ascii_boundary(b@, q as int);
                if with_equal {
                    lemma_ascii_boundary(b@, q + 1);
                }
            }
            self.seek(if with_equal { q + 2 } else { q + 1 });
            return Some(Ok(t));
        }
        if c == QUOTE {
            proof {
                lemma_ascii_boundary(b@, q as int);
            }
            let mut j = q + 1;
            loop
                invariant
                    b@ == self.bytes(),
                    n == b@.len(),
                    q + 1 <= j <= n,
                    string_close(b@, j as int) == string_close(b@, q + 1),
                ensures
                    j < n ==> b@[j as int] == QUOTE,
                decreases n - j,
            {
                if j >= n {
                    break;
                }
                let d = b[j];
                if d == QUOTE {
                    break;
                }
                if d == BACKSLASH {
                    if j + 1 >= n {
                        j = n;
                        break;
                    }
                    j = j + 2;
                } else {
                    j = j + 1;
                }
            }
            if j < n {
                proof {
                    lemma_ascii_boundary(b@, j as int);
                }
                let text = self.slice(q + 1, j);
                self.seek(j + 1);
                return Some(Ok(Token::String(text)));
            }
            self.seek(n);
            return Some(Err(Diagnostic { kind: ErrorKind::UnterminatedString, start: q, end: n, source: self.whole }));
        }
        if digit(c) {
            let mut e = scan_digits(b, q);
            if n - e > 1 && b[e] == DOT && digit(b[e + 1]) {
                e = scan_digits(b, e + 1);
            }
            proof {
                lemma_ascii_boundary(b@, q as int);
                assert(is_digit(b@[e - 1]));
                lemma_ascii_boundary(b@, e - 1);
            }
            let text = self.slice(q, e);
            self.seek(e);
            return Some(Ok(Token::Number(text)));
        }
        if alpha(c) {
            let e = scan_word(b, q);
            proof {
                lemma_ascii_boundary(b@, q as int);
                assert(is_alphanumeric(b@[e - 1]));
                lemma_ascii_boundary(b@, e - 1);
            }
            let t = self.word(q, e);
            self.seek(e);
            return Some(Ok(t));
        }
        let w = leading_width(b, q);
        self.seek(q + w);
        Some(Err(Diagnostic { kind: ErrorKind::UnexpectedCharacter, start: q, end: q + w, source: self.whole }))
    }
}

/// Scans the whole buffer: every outcome of pulling until the end, in order.
pub fn tokenize<'a>(input: &'a str) -> (r: Vec<Result<Token<'a>, Diagnostic<'a>>>)
    ensures
        r@.len() == lexemes_from(input.spec_bytes(), 0).len(),
        forall|i: int|
            0 <= i < r@.len() ==> delivers(
                #[trigger] r@[i],
                input.spec_bytes(),
                input,
                lexemes_from(input.spec_bytes(), 0)[i],
            ),
{
    let ghost b = input.spec_bytes();
    let mut lexer = Lexer::new(input);
    let mut out: Vec<Result<Token<'a>, Diagnostic<'a>>> = Vec::new();
    let ghost mut done: Seq<Scanned> = Seq::empty();
    loop
        invariant
            lexer.wf(),
            lexer.source() == input,
            lexer.bytes() == b,
            0 <= lexer.pos() <= b.len(),
            lexemes_from(b, 0) == done + lexemes_from(b, lexer.pos()),
            out@.len() == done.len(),
            forall|i: int| 0 <= i < out@.len() ==> delivers(#[trigger] out@[i], b, input, done[i]),
        ensures
            lexemes_from(b, 0) == done,
            out@.len() == done.len(),
            forall|i: int| 0 <= i < out@.len() ==> delivers(#[trigger] out@[i], b, input, done[i]),
        decreases b.len() - lexer.pos(),
    {
        let ghost p = lexer.pos();
        match lexer.next() {
            None => {
                assert(done + Seq::<Scanned>::empty() =~= done);
                break;
            },
            Some(item) => {
                proof {
                    let s = next_lexeme(b, p)->Some_0.0;
                    assert(lexemes_from(b, p) == seq![s] + lexemes_from(b, lexer.pos()));
                    assert(done + lexemes_from(b, p) =~= done.push(s) + lexemes_from(b, lexer.pos()));
                    done = done.push(s);
                }
                out.push(item);
            },
        }
    }
    out
}

/// Whether the bytes `[s, e)` of `b` are exactly those of `word`.
fn spells(b: &[u8], s: usize, e: usize, word: &str) -> (r: bool)
    requires
        s <= e <= b@.len(),
    ensures
        r == (b@.subrange(s as int, e as int) == word.spec_bytes()),
{
    let w = word.as_bytes();
    if w.len() != e - s {
        return false;
    }
    let mut j: usize = 0;
    while j < w.len()
        invariant
            w@ == word.spec_bytes(),
            w@.len() == e - s,
            s <= e <= b@.len(),
            j <= w@.len(),
            forall|m: int| 0 <= m < j ==> b@[s + m] == w@[m],
        decreases w@.len() - j,
    {
        if b[s + j] != w[j] {
            assert(b@.subrange(s as int, e as int)[j as int] != w@[j as int]);
            return false;
        }
        j = j + 1;
    }
    assert(b@.subrange(s as int, e as int) =~= w@);
    true
}

/// The token that the byte `c` stands for on its own.
fn single<'a>(c: u8) -> (r: Option<Token<'a>>)
    ensures
        r is Some <==> single_kind(c) is Some,
        r is Some ==> r->Some_0.spec_kind() == single_kind(c)->Some_0 && r->Some_0.payload()
            == Seq::<u8>::empty(),
{
    if c == LEFT_PAREN {
        Some(Token::LeftParen)
    } else if c == RIGHT_PAREN {
        Some(Token::RightParen)
    } else if c == LEFT_BRACE {
        Some(Token::LeftBrace)
    } else if c == RIGHT_BRACE {
        Some(Token::RightBrace)
    } else if c == SEMICOLON {
        Some(Token::Semicolon)
    } else if c == COMMA {
        Some(Token::Comma)
    } else if c == PLUS {
        Some(Token::Plus)
    } else if c == MINUS {
        Some(Token::Minus)
    } else if c == STAR {
        Some(Token::Star)
    } else if c == SLASH {
        Some(Token::Slash)
    } else if c == DOT {
        Some(Token::Dot)
    } else {
        None
    }
}

/// The one- or two-byte operator that starts with `c`, given whether `=`
/// follows it.
fn pair<'a>(c: u8, with_equal: bool) -> (r: Option<Token<'a>>)
    ensures
        r is Some <==> pair_kinds(c) is Some,
        r is Some ==> r->Some_0.payload() == Seq::<u8>::empty() && r->Some_0.spec_kind() == (
        if with_equal {
            pair_kinds(c)->Some_0.1
        } else {
            pair_kinds(c)->Some_0.0
        }),
{
    if c == LESS {
        Some(if with_equal { Token::LessEqual } else { Token::Less })
    } else if c == GREATER {
        Some(if with_equal { Token::GreaterEqual } else { Token::Greater })
    } else if c == BANG {
        Some(if with_equal { Token::BangEqual } else { Token::Bang })
    } else if c == EQUAL {
        Some(if with_equal { Token::EqualEqual } else { Token::Equal })
    } else {
        None
    }
}

/// End of the run of digits in `b` that starts at `i`.
fn scan_digits(b: &[u8], i: usize) -> (e: usize)
    requires
        i <= b@.len(),
    ensures
        e == digits_end(b@, i as int),
        i <= e <= b@.len(),
        forall|m: int| i <= m < e ==> is_digit(#[trigger] b@[m]),
        i < b@.len() && is_digit(b@[i as int]) ==> i < e,
{
    let mut e = i;
    while e < b.len() && digit(b[e])
        invariant
            i <= e <= b@.len(),
            digits_end(b@, e as int) == digits_end(b@, i as int),
            forall|m: int| i <= m < e ==> is_digit(#[trigger] b@[m]),
        decreases b@.len() - e,
    {
        e = e + 1;
    }
    e
}

/// End of the run of letters, digits and underscores in `b` that starts at `i`.
fn scan_word(b: &[u8], i: usize) -> (e: usize)
    requires
        i <= b@.len(),
    ensures
        e == word_end(b@, i as int),
        i <= e <= b@.len(),
        forall|m: int| i <= m < e ==> is_alphanumeric(#[trigger] b@[m]),
        i < b@.len() && is_alphanumeric(b@[i as int]) ==> i < e,
{
    let mut e = i;
    while e < b.len() && alphanumeric(b[e])
        invariant
            i <= e <= b@.len(),
            word_end(b@, e as int) == word_end(b@, i as int),
            forall|m: int| i <= m < e ==> is_alphanumeric(#[trigger] b@[m]),
        decreases b@.len() - e,
    {
        e = e + 1;
    }
    e
}

} // verus!
