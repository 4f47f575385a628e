use gor::token_type::{Keyword, TokenKind};

#[test]
fn token_type_func_tokenizes() {
    let token = TokenKind::from_str("func");
    assert_eq!(token, Some(TokenKind::Keyword(Keyword::Func)));
}

#[test]
fn token_type_identifier_tokenizes() {
    assert_eq!(TokenKind::from_str("main"), Some(TokenKind::Identifier));
    assert_eq!(
        TokenKind::from_str("variable123"),
        Some(TokenKind::Identifier)
    );
    assert_eq!(
        TokenKind::from_str("_underscore"),
        Some(TokenKind::Identifier)
    );
}

#[test]
fn token_type_integer_literal_tokenizes() {
    assert_eq!(TokenKind::from_str("123"), Some(TokenKind::IntegerLiteral));
    assert_eq!(TokenKind::from_str("0"), Some(TokenKind::IntegerLiteral));
}

#[test]
fn token_type_float_literal_tokenizes() {
    assert_eq!(
        TokenKind::from_str("123.456"),
        Some(TokenKind::FloatLiteral)
    );
    assert_eq!(TokenKind::from_str("0.5"), Some(TokenKind::FloatLiteral));
}

#[test]
fn token_type_strings_tokenize() {
    assert_eq!(
        TokenKind::from_str("\"hello\""),
        Some(TokenKind::StringLiteral)
    );
    assert_eq!(
        TokenKind::from_str("\"hello world\""),
        Some(TokenKind::StringLiteral)
    );
    assert_eq!(
        TokenKind::from_str("\"hello \\\"quoted\\\" text\""),
        Some(TokenKind::StringLiteral)
    );
}

#[test]
fn token_type_rune_literal_tokenizes() {
    assert_eq!(TokenKind::from_str("'a'"), Some(TokenKind::RuneLiteral));
    assert_eq!(TokenKind::from_str("'\\n'"), Some(TokenKind::RuneLiteral));
}

#[test]
fn token_type_invalid_tokens_return_none() {
    assert_eq!(TokenKind::from_str("123."), None); // ends with dot
    assert_eq!(TokenKind::from_str(".123"), None); // starts with dot
    assert_eq!(TokenKind::from_str("12.3.4"), None); // multiple dots
    assert_eq!(TokenKind::from_str("main()"), None); // contains symbol
    assert_eq!(TokenKind::from_str("123abc"), None); // mixed number and letter
}
