use cell_lang::lexer::Keyword;
use cell_lang::lexer::Lexer;
use cell_lang::lexer::Token;
use cell_lang::value::Value;

fn scan(src: &str) -> Vec<cell_lang::lexer::PToken> {
    let mut lexer = Lexer::new(src.to_string());
    lexer.scan_tokens().expect("expected the scan to succeed")
}

#[test]
fn scan_punctuation_and_operators() {
    let tokens = scan(", : ; . ~ - + * / ^ % { } [ ] ( ) @ # $");
    let kinds: Vec<&'static str> = tokens.iter().map(|t| t.inner.name()).collect();
    assert_eq!(
        kinds,
        vec![
            "Comma",
            "Colon",
            "Semicolon",
            "Period",
            "Tilde",
            "Minus",
            "Plus",
            "Asterisk",
            "Slash",
            "Carat",
            "Mod",
            "OpenBrace",
            "CloseBrace",
            "OpenBracket",
            "CloseBracket",
            "OpenParen",
            "CloseParen",
            "At",
            "Hash",
            "Sign",
        ]
    );
}

#[test]
fn scan_two_character_operators() {
    let tokens = scan("|> || | >= > <= < == => = && != !");
    let kinds: Vec<&'static str> = tokens.iter().map(|t| t.inner.name()).collect();
    assert_eq!(
        kinds,
        vec![
            "Pipeline",
            "Or",
            "Pipe",
            "GreaterThan",
            "Greater",
            "LesserThan",
            "Lesser",
            "Equals",
            "Arrow",
            "Define",
            "And",
            "NotEquals",
            "Not",
        ]
    );
}

#[test]
fn scan_numbers() {
    let tokens = scan("42 1_0 0");
    assert!(matches!(tokens[0].inner, Token::Literal(Value::Int(42))));
    assert!(matches!(tokens[1].inner, Token::Literal(Value::Int(10))));
    assert!(matches!(tokens[2].inner, Token::Literal(Value::Int(0))));
}

#[test]
fn scan_number_too_large() {
    let mut lexer = Lexer::new("300".to_string());
    let err = lexer.scan_tokens().unwrap_err();
    assert_eq!(err.msg, "Number does not fit in a cell value");
}

#[test]
fn scan_multiple_decimal_points() {
    let mut lexer = Lexer::new("1.2.3".to_string());
    let err = lexer.scan_tokens().unwrap_err();
    assert_eq!(err.msg, "More than one decimal point found in number");
}

#[test]
fn scan_float_literal_rejected() {
    let mut lexer = Lexer::new("1.5".to_string());
    let err = lexer.scan_tokens().unwrap_err();
    assert_eq!(err.msg, "Float literals are not supported");
}

#[test]
fn scan_string_literal() {
    let tokens = scan("\"hi there\"");
    match &tokens[0].inner {
        Token::Literal(Value::String(s)) => assert_eq!(s, "hi there"),
        other => panic!("expected a string literal, got {:?}", other),
    }
}

#[test]
fn scan_unterminated_string() {
    let mut lexer = Lexer::new("\"oops".to_string());
    let err = lexer.scan_tokens().unwrap_err();
    assert_eq!(err.msg, "EOF found unexpectedly");
}

#[test]
fn scan_char_literal() {
    let tokens = scan("'x'");
    assert!(matches!(tokens[0].inner, Token::Literal(Value::Char('x'))));
}

#[test]
fn scan_unterminated_char() {
    let mut lexer = Lexer::new("'xy".to_string());
    let err = lexer.scan_tokens().unwrap_err();
    assert_eq!(err.msg, "Char closing tag not found.");
}

#[test]
fn scan_comments_are_skipped() {
    let tokens = scan("1 // a comment\n2");
    assert_eq!(tokens.len(), 2);
    assert!(matches!(tokens[0].inner, Token::Literal(Value::Int(1))));
    assert!(matches!(tokens[1].inner, Token::Literal(Value::Int(2))));
}

#[test]
fn scan_keywords_and_identifiers() {
    let tokens = scan("if rule name _");
    assert!(matches!(tokens[0].inner, Token::Keyword(Keyword::If)));
    assert!(matches!(tokens[1].inner, Token::Keyword(Keyword::Rule)));
    match &tokens[2].inner {
        Token::Identifier(s) => assert_eq!(s, "name"),
        other => panic!("expected an identifier, got {:?}", other),
    }
    assert!(matches!(tokens[3].inner, Token::Underscore));
}

#[test]
fn scan_unrecognized_characters_skipped() {
    let tokens = scan("1 ? 2");
    assert_eq!(tokens.len(), 2);
}

// The lexer's emitted span covers exactly the consumed characters: the span
// runs from the position after the token's first character to the position
// after its last one, so re-slicing the source over that range reproduces
// the lexeme.
#[test]
fn scan_spans_cover_lexemes() {
    let src = "ab + cd\nxy";
    let tokens = scan(src);
    // "ab": characters 0..2 of line 1.
    assert_eq!((tokens[0].start.line, tokens[0].start.col), (1, 2));
    assert_eq!((tokens[0].end.line, tokens[0].end.col), (1, 3));
    let lexeme: String = src
        .lines()
        .nth(tokens[0].start.line - 1)
        .unwrap()
        .chars()
        .skip(tokens[0].start.col - 2)
        .take(tokens[0].end.col - tokens[0].start.col + 1)
        .collect();
    assert_eq!(lexeme, "ab");
    // "+": character 3.
    assert_eq!((tokens[1].start.col, tokens[1].end.col), (5, 5));
    // "cd": characters 5..7.
    assert_eq!((tokens[2].start.col, tokens[2].end.col), (7, 8));
    // "xy" sits on line 2.
    assert_eq!((tokens[3].start.line, tokens[3].start.col), (2, 2));
    assert_eq!((tokens[3].end.line, tokens[3].end.col), (2, 3));
}

#[test]
fn lexer_peek_and_next() {
    let mut lexer = Lexer::new("ab".to_string());
    assert_eq!(lexer.peek().unwrap(), 'a');
    assert_eq!(lexer.next().unwrap(), 'a');
    assert!(lexer.peek_not('z'));
    assert!(lexer.matches('b'));
    assert!(lexer.peek().is_err());
}
