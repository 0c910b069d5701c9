use codecrafters_interpreter::{decode_string, tokenize, Diagnostic, ErrorKind, Lexer, Literal, Token, TokenKind};

fn scan_all(input: &str) -> Vec<Result<Token<'_>, Diagnostic<'_>>> {
    let mut lexer = Lexer::new(input);
    let mut out = Vec::new();
    while let Some(item) = lexer.next() {
        out.push(item);
    }
    out
}

#[test]
fn whitespace_only_yields_nothing() {
    assert!(scan_all("").is_empty());
    assert!(scan_all(" \t\r\n  \n").is_empty());
    let mut lexer = Lexer::new("   ");
    assert!(lexer.next().is_none());
    assert_eq!(lexer.offset(), 3);
    assert_eq!(lexer.remainder(), "");
}

#[test]
fn single_punctuation_tokens() {
    let cases = [
        ("(", TokenKind::LeftParen, "LEFT_PAREN"),
        (")", TokenKind::RightParen, "RIGHT_PAREN"),
        ("{", TokenKind::LeftBrace, "LEFT_BRACE"),
        ("}", TokenKind::RightBrace, "RIGHT_BRACE"),
        (";", TokenKind::Semicolon, "SEMICOLON"),
        (",", TokenKind::Comma, "COMMA"),
        ("+", TokenKind::Plus, "PLUS"),
        ("-", TokenKind::Minus, "MINUS"),
        ("*", TokenKind::Star, "STAR"),
        (".", TokenKind::Dot, "DOT"),
        ("/", TokenKind::Slash, "SLASH"),
    ];
    for (input, kind, name) in cases {
        let all = scan_all(input);
        assert_eq!(all.len(), 1, "{input}");
        let token = all[0].unwrap();
        assert_eq!(token.kind(), kind);
        assert_eq!(token.kind().name(), name);
        assert_eq!(token.lexeme(), input);
        assert_eq!(token.literal().unwrap(), Literal::Null);
    }
}

#[test]
fn less_equal_is_one_token() {
    assert_eq!(scan_all("<="), vec![Ok(Token::LessEqual)]);
}

#[test]
fn less_lookahead_does_not_over_consume() {
    assert_eq!(scan_all("<a"), vec![Ok(Token::Less), Ok(Token::Ident("a"))]);
    assert_eq!(scan_all("<("), vec![Ok(Token::Less), Ok(Token::LeftParen)]);
    let mut lexer = Lexer::new("<1");
    assert_eq!(lexer.next(), Some(Ok(Token::Less)));
    assert_eq!(lexer.offset(), 1);
    assert_eq!(lexer.next(), Some(Ok(Token::Number("1"))));
}

#[test]
fn two_byte_operators() {
    assert_eq!(
        scan_all("== != >= <= = ! > <"),
        vec![
            Ok(Token::EqualEqual),
            Ok(Token::BangEqual),
            Ok(Token::GreaterEqual),
            Ok(Token::LessEqual),
            Ok(Token::Equal),
            Ok(Token::Bang),
            Ok(Token::Greater),
            Ok(Token::Less),
        ]
    );
    assert_eq!(Token::GreaterEqual.lexeme(), ">=");
    assert_eq!(TokenKind::BangEqual.name(), "BANG_EQUAL");
}

#[test]
fn string_round_trip() {
    let all = scan_all("\"abc\"");
    assert_eq!(all, vec![Ok(Token::String("abc"))]);
    let token = all[0].unwrap();
    assert_eq!(token.lexeme(), "\"abc\"");
    assert_eq!(token.literal().unwrap(), Literal::Text("abc".to_string()));
    assert_eq!(token.kind().name(), "STRING");
}

#[test]
fn unterminated_string_spans_to_end() {
    let input = "\"abc";
    let all = scan_all(input);
    assert_eq!(all.len(), 1);
    let d = all[0].unwrap_err();
    assert_eq!(d.kind, ErrorKind::UnterminatedString);
    assert_eq!(d.start, 0);
    assert_eq!(d.end, input.len());
    assert_eq!(d.source, input);
}

#[test]
fn escaped_quote_does_not_close_string() {
    let all = scan_all("\"a\\\"b\" +");
    assert_eq!(all, vec![Ok(Token::String("a\\\"b")), Ok(Token::Plus)]);
    assert_eq!(all[0].unwrap().literal().unwrap(), Literal::Text("a\"b".to_string()));
}

#[test]
fn escapes_are_decoded() {
    assert_eq!(Token::unescape("a\\nb\\tc\\rd\\\\e\\\"f").unwrap(), "a\nb\tc\rd\\e\"f");
    assert_eq!(Token::unescape("h\u{e9}").unwrap(), "h\u{e9}");
    assert_eq!(Token::unescape("").unwrap(), "");
}

#[test]
fn malformed_escape_is_reported() {
    let d = Token::unescape("ab\\qc").unwrap_err();
    assert_eq!(d.kind, ErrorKind::MalformedEscapeSequence);
    assert_eq!((d.start, d.end), (2, 4));
    let d = Token::unescape("ab\\").unwrap_err();
    assert_eq!((d.start, d.end), (2, 3));
    let d = Token::unescape("\\\u{20ac}").unwrap_err();
    assert_eq!((d.start, d.end), (0, 4));
    let token = Token::String("x\\y");
    assert_eq!(token.literal().unwrap_err().kind, ErrorKind::MalformedEscapeSequence);
}

#[test]
fn number_with_fraction() {
    let all = scan_all("123.45");
    assert_eq!(all, vec![Ok(Token::Number("123.45"))]);
    let token = all[0].unwrap();
    assert_eq!(token.lexeme(), "123.45");
    match token.literal().unwrap() {
        Literal::Number(text) => assert_eq!(text.parse::<f64>().unwrap(), 123.45),
        other => panic!("unexpected literal {other:?}"),
    }
}

#[test]
fn trailing_dot_is_separate() {
    assert_eq!(scan_all("123."), vec![Ok(Token::Number("123")), Ok(Token::Dot)]);
    assert_eq!(scan_all("1.a"), vec![Ok(Token::Number("1")), Ok(Token::Dot), Ok(Token::Ident("a"))]);
    assert_eq!(scan_all("-7"), vec![Ok(Token::Minus), Ok(Token::Number("7"))]);
}

#[test]
fn keyword_prefix_is_identifier() {
    assert_eq!(scan_all("classify"), vec![Ok(Token::Ident("classify"))]);
    assert_eq!(scan_all("class"), vec![Ok(Token::Class)]);
    assert_eq!(scan_all("Class _x1"), vec![Ok(Token::Ident("Class")), Ok(Token::Ident("_x1"))]);
}

#[test]
fn all_keywords() {
    let all = scan_all("and class else false for fun if nil or return super this true var while");
    let kinds: Vec<TokenKind> = all.iter().map(|r| r.unwrap().kind()).collect();
    assert_eq!(
        kinds,
        vec![
            TokenKind::And,
            TokenKind::Class,
            TokenKind::Else,
            TokenKind::False,
            TokenKind::For,
            TokenKind::Fun,
            TokenKind::If,
            TokenKind::Nil,
            TokenKind::Or,
            TokenKind::Return,
            TokenKind::Super,
            TokenKind::This,
            TokenKind::True,
            TokenKind::Var,
            TokenKind::While,
        ]
    );
    assert_eq!(TokenKind::Fun.name(), "FUN");
    assert_eq!(Token::While.lexeme(), "while");
    assert_eq!(Token::Ident("foo").kind().name(), "IDENTIFIER");
}

#[test]
fn spans_count_bytes_not_chars() {
    let input = "\u{20ac}\u{1}";
    let all = scan_all(input);
    assert_eq!(all.len(), 2);
    let first = all[0].unwrap_err();
    assert_eq!((first.kind, first.start, first.end), (ErrorKind::UnexpectedCharacter, 0, 3));
    let second = all[1].unwrap_err();
    assert_eq!((second.kind, second.start, second.end), (ErrorKind::UnexpectedCharacter, 3, 4));
    let d = scan_all("(\u{e9}x")[1].unwrap_err();
    assert_eq!((d.start, d.end), (1, 3));
}

#[test]
fn errors_do_not_stop_scanning() {
    assert_eq!(
        scan_all("@+#"),
        vec![
            Err(Diagnostic { kind: ErrorKind::UnexpectedCharacter, start: 0, end: 1, source: "@+#" }),
            Ok(Token::Plus),
            Err(Diagnostic { kind: ErrorKind::UnexpectedCharacter, start: 2, end: 3, source: "@+#" }),
        ]
    );
}

#[test]
fn line_comments_are_skipped() {
    assert_eq!(scan_all("// note ( \u{20ac}\n+"), vec![Ok(Token::Plus)]);
    assert_eq!(scan_all("/ /"), vec![Ok(Token::Slash), Ok(Token::Slash)]);
    assert!(scan_all("//").is_empty());
    assert_eq!(scan_all("1//x"), vec![Ok(Token::Number("1"))]);
}

#[test]
fn rescanning_gives_the_same_sequence() {
    let input = "var x = (1.5 + \"s\") // c\n; @ classify";
    let first = scan_all(input);
    let second = scan_all(input);
    assert_eq!(first, second);
    assert_eq!(first.len(), 11);
}

#[test]
fn diagnostic_messages() {
    let d = scan_all("@")[0].unwrap_err();
    assert_eq!(d.message(), "unexpected character '@'");
    let d = scan_all(" \u{20ac}")[0].unwrap_err();
    assert_eq!(d.message(), "unexpected character '\u{20ac}'");
    let d = scan_all("\"open")[0].unwrap_err();
    assert_eq!(d.message(), "Unterminated string");
    let d = Token::unescape("\\z").unwrap_err();
    assert_eq!(d.message(), "Malformed escape sequence");
}

#[test]
fn tokenize_collects_a_full_pass() {
    assert_eq!(
        tokenize("(1 \"a\" x"),
        vec![
            Ok(Token::LeftParen),
            Ok(Token::Number("1")),
            Ok(Token::String("a")),
            Ok(Token::Ident("x")),
        ]
    );
    assert!(tokenize(" // only a comment").is_empty());
    assert_eq!(tokenize("var x"), scan_all("var x"));
}

#[test]
fn escape_errors_in_buffer_offsets() {
    let input = "x \"a\\qb\" ;";
    let mut lexer = Lexer::new(input);
    assert_eq!(lexer.next(), Some(Ok(Token::Ident("x"))));
    assert_eq!(lexer.next(), Some(Ok(Token::String("a\\qb"))));
    let end = lexer.offset();
    assert_eq!(end, 8);
    let d = decode_string(input, 2, end).unwrap_err();
    assert_eq!(d.kind, ErrorKind::MalformedEscapeSequence);
    assert_eq!((d.start, d.end), (4, 6));
    assert_eq!(d.source, input);
    assert_eq!(&input[d.start..d.end], "\\q");
    assert_eq!(decode_string("\"a\\tb\"", 0, 6).unwrap(), "a\tb");
    assert_eq!(decode_string("\"\"", 0, 2).unwrap(), "");
}

#[test]
fn canonical_lines() {
    assert_eq!(Token::LeftParen.render("").unwrap(), "LEFT_PAREN ( null");
    assert_eq!(Token::String("hi").render("").unwrap(), "STRING \"hi\" hi");
    assert_eq!(Token::String("a\\nb").render("").unwrap(), "STRING \"a\\nb\" a\nb");
    assert_eq!(Token::Number("123.0").render("123").unwrap(), "NUMBER 123.0 123");
    assert_eq!(Token::Ident("foo").render("").unwrap(), "IDENTIFIER foo null");
    assert_eq!(Token::Fun.render("").unwrap(), "FUN fun null");
    assert_eq!(Token::LessEqual.render("").unwrap(), "LESS_EQUAL <= null");
    let d = Token::String("\\x").render("").unwrap_err();
    assert_eq!(d.kind, ErrorKind::MalformedEscapeSequence);
}
