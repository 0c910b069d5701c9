//! Tokens, their kinds, canonical names, keywords and escape decoding.
use vstd::prelude::*;
use vstd::string::{StringExecFns, StringSliceAdditionalSpecFns};
use crate::ascii::{
    byte_slice, char_width, lemma_ascii_boundary, lemma_char_within, lemma_encode_ascii, lemma_encode_concat,
    leading_width, BACKSLASH, CARRIAGE_RETURN, LINE_FEED, LOWER_N,
    LOWER_R, LOWER_T, QUOTE, TAB,
};
use crate::lexer::{Diagnostic, ErrorKind};
use vstd::utf8::{
    decode_utf8, encode_utf8, encode_utf8_decode_utf8, encode_utf8_valid_utf8, is_char_boundary,
    valid_utf8,
};

verus! {

/// The classification of a token, without its payload.
#[derive(Clone, Copy, Debug, PartialEq, Eq, Structural)]
pub enum TokenKind {
    LeftParen,
    RightParen,
    LeftBrace,
    RightBrace,
    Semicolon,
    Comma,
    Plus,
    Minus,
    Star,
    Bang,
    Equal,
    EqualEqual,
    LessEqual,
    GreaterEqual,
    BangEqual,
    Less,
    Greater,
    Slash,
    Dot,
    String,
    Ident,
    Number,
    And,
    Class,
    Else,
    False,
    For,
    Fun,
    If,
    Nil,
    Or,
    Return,
    Super,
    This,
    True,
    Var,
    While,
}

/// A classified lexeme. Payloads borrow the source buffer: `String` holds the
/// raw text between the quotes (escapes not decoded), `Ident` and `Number`
/// hold the lexeme itself.
#[derive(Clone, Copy, Debug, PartialEq)]
pub enum Token<'a> {
    LeftParen,
    RightParen,
    LeftBrace,
    RightBrace,
    Semicolon,
    Comma,
    Plus,
    Minus,
    Star,
    Bang,
    Equal,
    EqualEqual,
    LessEqual,
    GreaterEqual,
    BangEqual,
    Less,
    Greater,
    Slash,
    Dot,
    String(&'a str),
    Ident(&'a str),
    Number(&'a str),
    And,
    Class,
    Else,
    False,
    For,
    Fun,
    If,
    Nil,
    Or,
    Return,
    Super,
    This,
    True,
    Var,
    While,
}

/// The keyword spelled by `word`, or `Ident` when it spells none.
pub open spec fn keyword_kind(word: Seq<u8>) -> TokenKind {
    if word == "and".spec_bytes() {
        TokenKind::And
    } else if word == "class".spec_bytes() {
        TokenKind::Class
    } else if word == "else".spec_bytes() {
        TokenKind::Else
    } else if word == "false".spec_bytes() {
        TokenKind::False
    } else if word == "for".spec_bytes() {
        TokenKind::For
    } else if word == "fun".spec_bytes() {
        TokenKind::Fun
    } else if word == "if".spec_bytes() {
        TokenKind::If
    } else if word == "nil".spec_bytes() {
        TokenKind::Nil
    } else if word == "or".spec_bytes() {
        TokenKind::Or
    } else if word == "return".spec_bytes() {
        TokenKind::Return
    } else if word == "super".spec_bytes() {
        TokenKind::Super
    } else if word == "this".spec_bytes() {
        TokenKind::This
    } else if word == "true".spec_bytes() {
        TokenKind::True
    } else if word == "var".spec_bytes() {
        TokenKind::Var
    } else if word == "while".spec_bytes() {
        TokenKind::While
    } else {
        TokenKind::Ident
    }
}

/// True for the kinds whose token carries a slice of the source.
pub open spec fn has_payload(k: TokenKind) -> bool {
    k == TokenKind::String || k == TokenKind::Ident || k == TokenKind::Number
}

/// The value that `c` stands for after a backslash, where it is a recognised escape.
pub open spec fn escaped(c: u8) -> Option<u8> {
    if c == QUOTE {
        Some(QUOTE)
    } else if c == BACKSLASH {
        Some(BACKSLASH)
    } else if c == LOWER_N {
        Some(LINE_FEED)
    } else if c == LOWER_T {
        Some(TAB)
    } else if c == LOWER_R {
        Some(CARRIAGE_RETURN)
    } else {
        None
    }
}

/// Decoding of the escapes in the bytes `[i, hi)` of `b`: the decoded bytes,
/// or the offset of the first backslash that starts no recognised escape.
pub open spec fn unescape_between(b: Seq<u8>, i: int, hi: int) -> Result<Seq<u8>, int>
    decreases hi - i,
{
    if i < 0 || i >= hi || hi > b.len() {
        Ok(seq![])
    } else if b[i] != BACKSLASH {
        match unescape_between(b, i + 1, hi) {
            Ok(rest) => Ok(seq![b[i]] + rest),
            Err(at) => Err(at),
        }
    } else if i + 1 < hi && escaped(b[i + 1]) is Some {
        match unescape_between(b, i + 2, hi) {
            Ok(rest) => Ok(seq![escaped(b[i + 1])->Some_0] + rest),
            Err(at) => Err(at),
        }
    } else {
        Err(i)
    }
}

/// End of the offending escape at `at` in text that ends at `hi`: the
/// backslash and the character after it, if there is one.
pub open spec fn escape_span_end(b: Seq<u8>, at: int, hi: int) -> int {
    if at + 1 < hi {
        at + 1 + char_width(b, at + 1)
    } else {
        hi
    }
}

/// The span `[start, end)` of `b` is a string literal: a quote, raw text, a quote.
pub open spec fn is_string_span(b: Seq<u8>, start: int, end: int) -> bool {
    &&& 0 <= start
    &&& start + 2 <= end <= b.len()
    &&& b[start] == QUOTE
    &&& b[end - 1] == QUOTE
}

/// Decodes the escapes in the bytes `[lo, hi)` of `src`; a bad escape is
/// reported at its offsets in `src`.
fn decode_range<'a>(src: &'a str, lo: usize, hi: usize) -> (r: Result<String, Diagnostic<'a>>)
    requires
        lo <= hi <= src.spec_bytes().len(),
        is_char_boundary(src.spec_bytes(), lo as int),
        is_char_boundary(src.spec_bytes(), hi as int),
    ensures
        match unescape_between(src.spec_bytes(), lo as int, hi as int) {
            Ok(out) => r is Ok && encode_utf8(r->Ok_0@) == out && r->Ok_0@ == decode_utf8(out),
            Err(at) => r is Err && r->Err_0.kind == ErrorKind::MalformedEscapeSequence
                && r->Err_0.start == at && r->Err_0.end == escape_span_end(src.spec_bytes(), at, hi as int)
                && r->Err_0.source == src && r->Err_0.spans_text(),
        },
{
    let b = src.as_bytes();
    let mut out = String::new();
    let mut run: usize = lo;
    let mut i: usize = lo;
    proof {
        encode_utf8_valid_utf8(src@);
        assert(encode_utf8(out@) =~= Seq::<u8>::empty());
        assert(b@.subrange(lo as int, lo as int) =~= Seq::<u8>::empty());
    }
    while i < hi
        invariant
            hi <= b@.len(),
            b@ == src.spec_bytes(),
            valid_utf8(b@),
            is_char_boundary(b@, hi as int),
            lo <= run <= i <= hi,
            is_char_boundary(b@, run as int),
            match unescape_between(b@, lo as int, hi as int) {
                Ok(all) => unescape_between(b@, i as int, hi as int) matches Ok(rest) && all
                    == encode_utf8(out@) + b@.subrange(run as int, i as int) + rest,
                Err(at) => unescape_between(b@, i as int, hi as int) == Err::<Seq<u8>, int>(at),
            },
        decreases hi - i,
    {
        let c = b[i];
        if c != BACKSLASH {
            proof {
                assert(b@.subrange(run as int, i + 1) =~= b@.subrange(run as int, i as int) + seq![c]);
                if let Ok(all) = unescape_between(b@, lo as int, hi as int) {
                    let rest = unescape_between(b@, i + 1, hi as int)->Ok_0;
                    assert(all =~= encode_utf8(out@) + b@.subrange(run as int, i + 1) + rest);
                }
            }
            i = i + 1;
        } else if i + 1 < hi && (b[i + 1] == QUOTE || b[i + 1] == BACKSLASH || b[i + 1] == LOWER_N
            || b[i + 1] == LOWER_T || b[i + 1] == LOWER_R) {
            proof {
                lemma_ascii_boundary(b@, i as int);
                lemma_ascii_boundary(b@, i + 1);
            }
            let ghost before = out@;
            let piece = byte_slice(src, run, i);
            out.append(piece);
            let text = escape_text(b[i + 1]);
            out.append(text);
            proof {
                lemma_encode_concat(before, piece@);
                lemma_encode_concat(before + piece@, text@);
                assert(out@ == before + piece@ + text@);
                if let Ok(all) = unescape_between(b@, lo as int, hi as int) {
                    let rest = unescape_between(b@, i + 2, hi as int)->Ok_0;
                    assert(b@.subrange(i + 2, i + 2) =~= Seq::<u8>::empty());
                    assert(all =~= encode_utf8(out@) + b@.subrange(i + 2, i + 2) + rest);
                }
            }
            i = i + 2;
            run = i;
        } else {
            proof {
                lemma_ascii_boundary(b@, i as int);
            }
            let end = if i + 1 < hi {
                proof {
                    lemma_char_within(b@, i + 1, hi as int);
                }
                i + 1 + leading_width(b, i + 1)
            } else {
                hi
            };
            return Err(Diagnostic { kind: ErrorKind::MalformedEscapeSequence, start: i, end, source: src });
        }
    }
    let ghost before = out@;
    let piece = byte_slice(src, run, hi);
    out.append(piece);
    proof {
        lemma_encode_concat(before, piece@);
        if let Ok(all) = unescape_between(b@, lo as int, hi as int) {
            assert(all =~= encode_utf8(out@));
        }
        encode_utf8_decode_utf8(out@);
    }
    Ok(out)
}

/// Decodes the escapes of the string literal that spans `[start, end)` of
/// `whole`, quotes included, as `Lexer::next` delivers it. A bad escape is
/// reported at its byte offsets in `whole`, with `whole` as the source.
pub fn decode_string<'a>(whole: &'a str, start: usize, end: usize) -> (r: Result<String, Diagnostic<'a>>)
    requires
        is_string_span(whole.spec_bytes(), start as int, end as int),
    ensures
        match unescape_between(whole.spec_bytes(), start + 1, end - 1) {
            Ok(out) => r is Ok && r->Ok_0@ == decode_utf8(out),
            Err(at) => r is Err && r->Err_0.kind == ErrorKind::MalformedEscapeSequence
                && r->Err_0.start == at && r->Err_0.end == escape_span_end(whole.spec_bytes(), at, end - 1)
                && r->Err_0.source == whole && r->Err_0.spans_text(),
        },
{
    proof {
        encode_utf8_valid_utf8(whole@);
        lemma_ascii_boundary(whole.spec_bytes(), start as int);
        lemma_ascii_boundary(whole.spec_bytes(), end - 1);
    }
    decode_range(whole, start + 1, end - 1)
}

/// Payload of the literal column of a token's canonical line.
#[derive(Clone, Debug, PartialEq)]
pub enum Literal<'a> {
    /// Printed as `null`.
    Null,
    /// The decoded text of a string.
    Text(String),
    /// The lexeme of a number, to be shown as the double-precision value it denotes.
    Number(&'a str),
}

/// The name that opens a token's canonical line. Every keyword is named by
/// its upper-cased spelling, `fun` included: it is named `FUN`, deliberately
/// not `FUNCTION` as some tools print it, so that one rule covers every
/// keyword.
pub open spec fn kind_name(k: TokenKind) -> Seq<char> {
    match k {
            TokenKind::LeftParen => "LEFT_PAREN"@,
            TokenKind::RightParen => "RIGHT_PAREN"@,
            TokenKind::LeftBrace => "LEFT_BRACE"@,
            TokenKind::RightBrace => "RIGHT_BRACE"@,
            TokenKind::Semicolon => "SEMICOLON"@,
            TokenKind::Comma => "COMMA"@,
            TokenKind::Plus => "PLUS"@,
            TokenKind::Minus => "MINUS"@,
            TokenKind::Star => "STAR"@,
            TokenKind::Bang => "BANG"@,
            TokenKind::Equal => "EQUAL"@,
            TokenKind::EqualEqual => "EQUAL_EQUAL"@,
            TokenKind::LessEqual => "LESS_EQUAL"@,
            TokenKind::GreaterEqual => "GREATER_EQUAL"@,
            TokenKind::BangEqual => "BANG_EQUAL"@,
            TokenKind::Less => "LESS"@,
            TokenKind::Greater => "GREATER"@,
            TokenKind::Slash => "SLASH"@,
            TokenKind::Dot => "DOT"@,
            TokenKind::String => "STRING"@,
            TokenKind::Ident => "IDENTIFIER"@,
            TokenKind::Number => "NUMBER"@,
            TokenKind::And => "AND"@,
            TokenKind::Class => "CLASS"@,
            TokenKind::Else => "ELSE"@,
            TokenKind::False => "FALSE"@,
            TokenKind::For => "FOR"@,
            TokenKind::Fun => "FUN"@,
            TokenKind::If => "IF"@,
            TokenKind::Nil => "NIL"@,
            TokenKind::Or => "OR"@,
            TokenKind::Return => "RETURN"@,
            TokenKind::Super => "SUPER"@,
            TokenKind::This => "THIS"@,
            TokenKind::True => "TRUE"@,
            TokenKind::Var => "VAR"@,
            TokenKind::While => "WHILE"@,
    }
}

/// The fixed text of a kind; empty for the kinds that carry a payload.
pub open spec fn fixed_text(k: TokenKind) -> Seq<char> {
    match k {
            TokenKind::LeftParen => "("@,
            TokenKind::RightParen => ")"@,
            TokenKind::LeftBrace => "{"@,
            TokenKind::RightBrace => "}"@,
            TokenKind::Semicolon => ";"@,
            TokenKind::Comma => ","@,
            TokenKind::Plus => "+"@,
            TokenKind::Minus => "-"@,
            TokenKind::Star => "*"@,
            TokenKind::Bang => "!"@,
            TokenKind::Equal => "="@,
            TokenKind::EqualEqual => "=="@,
            TokenKind::LessEqual => "<="@,
            TokenKind::GreaterEqual => ">="@,
            TokenKind::BangEqual => "!="@,
            TokenKind::Less => "<"@,
            TokenKind::Greater => ">"@,
            TokenKind::Slash => "/"@,
            TokenKind::Dot => "."@,
            TokenKind::String => ""@,
            TokenKind::Ident => ""@,
            TokenKind::Number => ""@,
            TokenKind::And => "and"@,
            TokenKind::Class => "class"@,
            TokenKind::Else => "else"@,
            TokenKind::False => "false"@,
            TokenKind::For => "for"@,
            TokenKind::Fun => "fun"@,
            TokenKind::If => "if"@,
            TokenKind::Nil => "nil"@,
            TokenKind::Or => "or"@,
            TokenKind::Return => "return"@,
            TokenKind::Super => "super"@,
            TokenKind::This => "this"@,
            TokenKind::True => "true"@,
            TokenKind::Var => "var"@,
            TokenKind::While => "while"@,
    }
}

impl TokenKind {
    pub fn name(&self) -> (r: &'static str)
        ensures
            r@ == kind_name(*self),
    {
        match self {
            TokenKind::LeftParen => "LEFT_PAREN",
            TokenKind::RightParen => "RIGHT_PAREN",
            TokenKind::LeftBrace => "LEFT_BRACE",
            TokenKind::RightBrace => "RIGHT_BRACE",
            TokenKind::Semicolon => "SEMICOLON",
            TokenKind::Comma => "COMMA",
            TokenKind::Plus => "PLUS",
            TokenKind::Minus => "MINUS",
            TokenKind::Star => "STAR",
            TokenKind::Bang => "BANG",
            TokenKind::Equal => "EQUAL",
            TokenKind::EqualEqual => "EQUAL_EQUAL",
            TokenKind::LessEqual => "LESS_EQUAL",
            TokenKind::GreaterEqual => "GREATER_EQUAL",
            TokenKind::BangEqual => "BANG_EQUAL",
            TokenKind::Less => "LESS",
            TokenKind::Greater => "GREATER",
            TokenKind::Slash => "SLASH",
            TokenKind::Dot => "DOT",
            TokenKind::String => "STRING",
            TokenKind::Ident => "IDENTIFIER",
            TokenKind::Number => "NUMBER",
            TokenKind::And => "AND",
            TokenKind::Class => "CLASS",
            TokenKind::Else => "ELSE",
            TokenKind::False => "FALSE",
            TokenKind::For => "FOR",
            TokenKind::Fun => "FUN",
            TokenKind::If => "IF",
            TokenKind::Nil => "NIL",
            TokenKind::Or => "OR",
            TokenKind::Return => "RETURN",
            TokenKind::Super => "SUPER",
            TokenKind::This => "THIS",
            TokenKind::True => "TRUE",
            TokenKind::Var => "VAR",
            TokenKind::While => "WHILE",
        }
    }

    pub fn text(&self) -> (r: &'static str)
        ensures
            r@ == fixed_text(*self),
    {
        match self {
            TokenKind::LeftParen => "(",
            TokenKind::RightParen => ")",
            TokenKind::LeftBrace => "{",
            TokenKind::RightBrace => "}",
            TokenKind::Semicolon => ";",
            TokenKind::Comma => ",",
            TokenKind::Plus => "+",
            TokenKind::Minus => "-",
            TokenKind::Star => "*",
            TokenKind::Bang => "!",
            TokenKind::Equal => "=",
            TokenKind::EqualEqual => "==",
            TokenKind::LessEqual => "<=",
            TokenKind::GreaterEqual => ">=",
            TokenKind::BangEqual => "!=",
            TokenKind::Less => "<",
            TokenKind::Greater => ">",
            TokenKind::Slash => "/",
            TokenKind::Dot => ".",
            TokenKind::String => "",
            TokenKind::Ident => "",
            TokenKind::Number => "",
            TokenKind::And => "and",
            TokenKind::Class => "class",
            TokenKind::Else => "else",
            TokenKind::False => "false",
            TokenKind::For => "for",
            TokenKind::Fun => "fun",
            TokenKind::If => "if",
            TokenKind::Nil => "nil",
            TokenKind::Or => "or",
            TokenKind::Return => "return",
            TokenKind::Super => "super",
            TokenKind::This => "this",
            TokenKind::True => "true",
            TokenKind::Var => "var",
            TokenKind::While => "while",
        }
    }
}

/// The one-character text that the escape `\c` stands for.
fn escape_text(c: u8) -> (r: &'static str)
    requires
        escaped(c) is Some,
    ensures
        encode_utf8(r@) == seq![escaped(c)->Some_0],
{
    if c == QUOTE {
        proof {
            reveal_strlit("\"");
            assert("\""@ =~= seq!['"']);
            lemma_encode_ascii('"');
        }
        "\""
    } else if c == BACKSLASH {
        proof {
            reveal_strlit("\\");
            assert("\\"@ =~= seq!['\\']);
            lemma_encode_ascii('\\');
        }
        "\\"
    } else if c == LOWER_N {
        proof {
            reveal_strlit("\n");
            assert("\n"@ =~= seq!['\n']);
            lemma_encode_ascii('\n');
        }
        "\n"
    } else if c == LOWER_T {
        proof {
            reveal_strlit("\t");
            assert("\t"@ =~= seq!['\t']);
            lemma_encode_ascii('\t');
        }
        "\t"
    } else {
        proof {
            reveal_strlit("\r");
            assert("\r"@ =~= seq!['\r']);
            lemma_encode_ascii('\r');
        }
        "\r"
    }
}

impl<'a> Token<'a> {
    pub open spec fn spec_kind(&self) -> TokenKind {
        match self {
            Token::LeftParen => TokenKind::LeftParen,
            Token::RightParen => TokenKind::RightParen,
            Token::LeftBrace => TokenKind::LeftBrace,
            Token::RightBrace => TokenKind::RightBrace,
            Token::Semicolon => TokenKind::Semicolon,
            Token::Comma => TokenKind::Comma,
            Token::Plus => TokenKind::Plus,
            Token::Minus => TokenKind::Minus,
            Token::Star => TokenKind::Star,
            Token::Bang => TokenKind::Bang,
            Token::Equal => TokenKind::Equal,
            Token::EqualEqual => TokenKind::EqualEqual,
            Token::LessEqual => TokenKind::LessEqual,
            Token::GreaterEqual => TokenKind::GreaterEqual,
            Token::BangEqual => TokenKind::BangEqual,
            Token::Less => TokenKind::Less,
            Token::Greater => TokenKind::Greater,
            Token::Slash => TokenKind::Slash,
            Token::Dot => TokenKind::Dot,
            Token::String(_) => TokenKind::String,
            Token::Ident(_) => TokenKind::Ident,
            Token::Number(_) => TokenKind::Number,
            Token::And => TokenKind::And,
            Token::Class => TokenKind::Class,
            Token::Else => TokenKind::Else,
            Token::False => TokenKind::False,
            Token::For => TokenKind::For,
            Token::Fun => TokenKind::Fun,
            Token::If => TokenKind::If,
            Token::Nil => TokenKind::Nil,
            Token::Or => TokenKind::Or,
            Token::Return => TokenKind::Return,
            Token::Super => TokenKind::Super,
            Token::This => TokenKind::This,
            Token::True => TokenKind::True,
            Token::Var => TokenKind::Var,
            Token::While => TokenKind::While,
        }
    }

    /// The bytes of the borrowed payload; empty for the fixed-text kinds.
    pub open spec fn payload(&self) -> Seq<u8> {
        match self {
            Token::String(s) => s.spec_bytes(),
            Token::Ident(s) => s.spec_bytes(),
            Token::Number(s) => s.spec_bytes(),
            _ => seq![],
        }
    }

    pub fn kind(&self) -> (k: TokenKind)
        ensures
            k == self.spec_kind(),
    {
        match self {
            Token::LeftParen => TokenKind::LeftParen,
            Token::RightParen => TokenKind::RightParen,
            Token::LeftBrace => TokenKind::LeftBrace,
            Token::RightBrace => TokenKind::RightBrace,
            Token::Semicolon => TokenKind::Semicolon,
            Token::Comma => TokenKind::Comma,
            Token::Plus => TokenKind::Plus,
            Token::Minus => TokenKind::Minus,
            Token::Star => TokenKind::Star,
            Token::Bang => TokenKind::Bang,
            Token::Equal => TokenKind::Equal,
            Token::EqualEqual => TokenKind::EqualEqual,
            Token::LessEqual => TokenKind::LessEqual,
            Token::GreaterEqual => TokenKind::GreaterEqual,
            Token::BangEqual => TokenKind::BangEqual,
            Token::Less => TokenKind::Less,
            Token::Greater => TokenKind::Greater,
            Token::Slash => TokenKind::Slash,
            Token::Dot => TokenKind::Dot,
            Token::String(_) => TokenKind::String,
            Token::Ident(_) => TokenKind::Ident,
            Token::Number(_) => TokenKind::Number,
            Token::And => TokenKind::And,
            Token::Class => TokenKind::Class,
            Token::Else => TokenKind::Else,
            Token::False => TokenKind::False,
            Token::For => TokenKind::For,
            Token::Fun => TokenKind::Fun,
            Token::If => TokenKind::If,
            Token::Nil => TokenKind::Nil,
            Token::Or => TokenKind::Or,
            Token::Return => TokenKind::Return,
            Token::Super => TokenKind::Super,
            Token::This => TokenKind::This,
            Token::True => TokenKind::True,
            Token::Var => TokenKind::Var,
            Token::While => TokenKind::While,
        }
    }

    /// The lexeme as written in the source: quotes around a string's raw
    /// text, the slice itself for identifiers and numbers, the fixed text
    /// otherwise.
    pub open spec fn spec_lexeme(&self) -> Seq<char> {
        match self {
            Token::String(s) => "\""@ + s@ + "\""@,
            Token::Ident(s) => s@,
            Token::Number(s) => s@,
            _ => fixed_text(self.spec_kind()),
        }
    }

    pub fn lexeme(&self) -> (r: String)
        ensures
            r@ == self.spec_lexeme(),
    {
        match self {
            Token::String(s) => {
                let mut r = <String as StringExecFns>::from_str("\"");
                r.append(s);
                r.append("\"");
                r
            },
            Token::Ident(s) => <String as StringExecFns>::from_str(s),
            Token::Number(s) => <String as StringExecFns>::from_str(s),
            _ => <String as StringExecFns>::from_str(self.kind().text()),
        }
    }

    /// The literal column of the token's canonical line: the decoded text of
    /// a string (or the diagnostic of its first bad escape), the lexeme of a
    /// number, and `Null` for every other kind.
    pub fn literal(&self) -> (r: Result<Literal<'a>, Diagnostic<'a>>)
        ensures
            match self {
                Token::String(s) => match unescape_between(s.spec_bytes(), 0, s.spec_bytes().len() as int) {
                    Ok(out) => r matches Ok(Literal::Text(v)) && v@ == decode_utf8(out),
                    Err(at) => r is Err && r->Err_0.kind == ErrorKind::MalformedEscapeSequence
                        && r->Err_0.start == at && r->Err_0.end == escape_span_end(
                        s.spec_bytes(),
                        at,
                        s.spec_bytes().len() as int,
                    ) && r->Err_0.source == *s && r->Err_0.spans_text(),
                },
                Token::Number(s) => r == Ok::<Literal<'a>, Diagnostic<'a>>(Literal::Number(*s)),
                _ => r == Ok::<Literal<'a>, Diagnostic<'a>>(Literal::Null),
            },
    {
        match self {
            Token::String(s) => match Token::unescape(s) {
                Ok(v) => Ok(Literal::Text(v)),
                Err(d) => Err(d),
            },
            Token::Number(s) => Ok(Literal::Number(s)),
            _ => Ok(Literal::Null),
        }
    }

    /// The literal column of the canonical line, given the text of a
    /// number's value; `None` where a string's escapes do not decode.
    pub open spec fn literal_column(&self, number_value: Seq<char>) -> Option<Seq<char>> {
        match self {
            Token::String(s) => match unescape_between(s.spec_bytes(), 0, s.spec_bytes().len() as int) {
                Ok(out) => Some(decode_utf8(out)),
                Err(_) => None,
            },
            Token::Number(_) => Some(number_value),
            _ => Some("null"@),
        }
    }

    /// The canonical line `KIND LEXEME LITERAL`. A number's literal column
    /// is its value as a double, which the caller formats and passes in as
    /// `number_value`; every other token ignores it. A string whose escapes
    /// do not decode gives the diagnostic of `literal`.
    pub fn render(&self, number_value: &str) -> (r: Result<String, Diagnostic<'a>>)
        ensures
            match self.literal_column(number_value@) {
                Some(col) => r is Ok && r->Ok_0@ == kind_name(self.spec_kind()) + " "@
                    + self.spec_lexeme() + " "@ + col,
                None => r is Err && r->Err_0.kind == ErrorKind::MalformedEscapeSequence,
            },
    {
        let col = match self {
            Token::String(s) => match Token::unescape(s) {
                Ok(text) => text,
                Err(d) => return Err(d),
            },
            Token::Number(_) => <String as StringExecFns>::from_str(number_value),
            _ => <String as StringExecFns>::from_str("null"),
        };
        let mut line = <String as StringExecFns>::from_str(self.kind().name());
        line.append(" ");
        let lexeme = self.lexeme();
        line.append(lexeme.as_str());
        line.append(" ");
        line.append(col.as_str());
        Ok(line)
    }

    /// Decodes the escapes of a string payload: `\"`, `\\`, `\n`, `\t` and
    /// `\r`. Any other character after a backslash, or a backslash at the very
    /// end, is a `MalformedEscapeSequence` whose span, relative to `s`, covers
    /// the backslash and the character after it. `decode_string` does the same
    /// for a literal inside the whole buffer, with offsets in that buffer.
    pub fn unescape(s: &str) -> (r: Result<String, Diagnostic<'_>>)
        ensures
            match unescape_between(s.spec_bytes(), 0, s.spec_bytes().len() as int) {
                Ok(out) => r is Ok && encode_utf8(r->Ok_0@) == out && r->Ok_0@ == decode_utf8(out),
                Err(at) => r is Err && r->Err_0.kind == ErrorKind::MalformedEscapeSequence
                    && r->Err_0.start == at && r->Err_0.end == escape_span_end(
                    s.spec_bytes(),
                    at,
                    s.spec_bytes().len() as int,
                ) && r->Err_0.source == s && r->Err_0.spans_text(),
            },
    {
        proof {
            encode_utf8_valid_utf8(s@);
            vstd::utf8::is_char_boundary_start_end_of_seq(s.spec_bytes());
        }
        let n = s.as_bytes().len();
        decode_range(s, 0, n)
    }
}

} // verus!
