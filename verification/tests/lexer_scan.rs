use gor::lexer::Lexer;
use gor::token::Token;
use gor::token_type::{Keyword, Operator, TokenKind};

#[test]
fn simple_statement() {
    let input = r#"j := i++"#;
    let mut lexer = Lexer::new(input);
    let token = lexer.next_token();
    assert_eq!(token.kind, Some(TokenKind::Identifier));
    let token = lexer.next_token();
    assert_eq!(token.kind, Some(TokenKind::ColonEqual));
    let token = lexer.next_token();
    assert_eq!(token.kind, Some(TokenKind::Identifier));
    let token = lexer.next_token();
    assert_eq!(token.kind, Some(TokenKind::PlusPlus));
}

#[test]
fn character_cutting_bug_demonstration() {
    let input = "hello world test";
    let mut lexer = Lexer::new(input);

    let mut tokens: Vec<Token> = Vec::new();
    loop {
        let token = lexer.next_token();
        let mut should_break = false;
        if let Some(TokenKind::EOF) = token.kind {
            should_break = true;
        }
        tokens.push(token);
        if should_break {
            break;
        }
    }

    assert_eq!(lexer.errors().len(), 0);
    assert_eq!(tokens.len(), 4);
    assert_eq!(tokens[0].kind, Some(TokenKind::Identifier));
    assert_eq!(tokens[1].kind, Some(TokenKind::Identifier));
    assert_eq!(tokens[2].kind, Some(TokenKind::Identifier));
    assert_eq!(tokens[0].value, "hello");
    assert_eq!(tokens[1].value, "world");
    assert_eq!(tokens[2].value, "test");
    assert_eq!(tokens[3].kind, Some(TokenKind::EOF));
}

#[test]
fn token_separation_for_main_function() {
    let input = "main()";
    let mut lexer = Lexer::new(input);

    let token1 = lexer.next_token();
    println!(
        "Token 1: {:?}, value: '{}', errors: {}",
        token1.kind,
        token1.value,
        lexer.errors().len()
    );
    assert_eq!(token1.kind, Some(TokenKind::Identifier));
    assert_eq!(lexer.errors().len(), 0);

    let token2 = lexer.next_token();
    println!("Token 2: {:?}, value: '{}'", token2.kind, token2.value);
    assert_eq!(token2.kind, Some(TokenKind::LeftParen));

    let token3 = lexer.next_token();
    assert_eq!(token3.kind, Some(TokenKind::RightParen));

    let token4 = lexer.next_token();
    assert_eq!(token4.kind, Some(TokenKind::EOF));
}

#[test]
fn string_to_symbol_transition() {
    let input = "hello+world-test";
    let mut lexer = Lexer::new(input);

    // Should tokenize as: hello (error), +, world (error), -, test (error)
    let token1 = lexer.next_token();
    assert_eq!(token1.kind, Some(TokenKind::Identifier));
    assert_eq!(lexer.errors().len(), 0);

    let token2 = lexer.next_token();
    assert_eq!(token2.kind, Some(TokenKind::Operator(Operator::Plus)));

    let token3 = lexer.next_token();
    assert_eq!(token3.kind, Some(TokenKind::Identifier));
    assert_eq!(lexer.errors().len(), 0);

    let token4 = lexer.next_token();
    assert_eq!(token4.kind, Some(TokenKind::Operator(Operator::Minus)));

    let token5 = lexer.next_token();
    assert_eq!(token5.kind, Some(TokenKind::Identifier));

    let token6 = lexer.next_token();
    assert_eq!(token6.kind, Some(TokenKind::EOF));
}

#[test]
fn basic_function() {
    let input = r#"func main() {
fmt.Println("Hello, World!")
}
f"#;
    let mut lexer = Lexer::new(input);
    let token = lexer.next_token();
    assert_eq!(token.kind, Some(TokenKind::Keyword(Keyword::Func)));
    let token = lexer.next_token();
    assert_eq!(token.kind, Some(TokenKind::Identifier));
    let token = lexer.next_token();
    assert_eq!(token.kind, Some(TokenKind::LeftParen));
    let token = lexer.next_token();
    assert_eq!(token.kind, Some(TokenKind::RightParen));
}

#[test]
fn unterminated_rune_error() {
    let input = r#"'hello world"#;
    let mut lexer = Lexer::new(input);

    let token1 = lexer.next_token();
    assert_eq!(token1.kind, None);

    assert_eq!(lexer.errors().len(), 1);
    // The error should be for an unterminated rune (invalid due to whitespace)
}

#[test]
fn unterminated_rune_no_whitespace() {
    let input = r#"'abc"#; // No closing quote, no whitespace
    let mut lexer = Lexer::new(input);

    let token1 = lexer.next_token();
    assert_eq!(token1.kind, None);

    assert_eq!(lexer.errors().len(), 1);
    // The error should be for an unterminated rune (EOF reached)
}

#[test]
fn simple_string_parsing() {
    let input = r#""hello world""#;
    let mut lexer = Lexer::new(input);

    let token1 = lexer.next_token();
    assert_eq!(token1.kind, Some(TokenKind::StringLiteral));

    let token2 = lexer.next_token();
    assert_eq!(token2.kind, Some(TokenKind::EOF));

    // Should have no errors for a valid string
    assert_eq!(lexer.errors().len(), 0);
}

#[test]
fn string_with_escape_sequences() {
    let input = r#""hello \"quoted\" text\n""#;
    let mut lexer = Lexer::new(input);

    let token1 = lexer.next_token();
    assert_eq!(token1.kind, Some(TokenKind::StringLiteral));

    let token2 = lexer.next_token();
    assert_eq!(token2.kind, Some(TokenKind::EOF));

    assert_eq!(lexer.errors().len(), 0);
}

#[test]
fn unterminated_string_error() {
    let input = r#""hello world"#;
    let mut lexer = Lexer::new(input);

    let token1 = lexer.next_token();
    assert_eq!(token1.kind, None);

    assert_eq!(lexer.errors().len(), 1);
    // The error should be for an unterminated string
}

#[test]
fn string_mixed_with_other_tokens() {
    let input = r#"func main() { fmt.Println("Hello, World!") }"#;
    let mut lexer = Lexer::new(input);

    // func
    let token1 = lexer.next_token();
    assert_eq!(token1.kind, Some(TokenKind::Keyword(Keyword::Func)));

    // main (identifier)
    let token2 = lexer.next_token();
    assert_eq!(token2.kind, Some(TokenKind::Identifier));

    // (
    let token3 = lexer.next_token();
    assert_eq!(token3.kind, Some(TokenKind::LeftParen));

    // )
    let token4 = lexer.next_token();
    assert_eq!(token4.kind, Some(TokenKind::RightParen));

    // {
    let token5 = lexer.next_token();
    assert_eq!(token5.kind, Some(TokenKind::LeftBrace));

    // fmt (identifier)
    let token6 = lexer.next_token();
    assert_eq!(token6.kind, Some(TokenKind::Identifier));

    // .
    let token7 = lexer.next_token();
    assert_eq!(token7.kind, Some(TokenKind::Dot));

    // Println (identifier)
    let token8 = lexer.next_token();
    assert_eq!(token8.kind, Some(TokenKind::Identifier));

    // (
    let token9 = lexer.next_token();
    assert_eq!(token9.kind, Some(TokenKind::LeftParen));

    // "Hello, World!" (string literal)
    let token10 = lexer.next_token();
    assert_eq!(token10.kind, Some(TokenKind::StringLiteral));

    // )
    let token11 = lexer.next_token();
    assert_eq!(token11.kind, Some(TokenKind::RightParen));

    // }
    let token12 = lexer.next_token();
    assert_eq!(token12.kind, Some(TokenKind::RightBrace));

    // EOF
    let token13 = lexer.next_token();
    assert_eq!(token13.kind, Some(TokenKind::EOF));

    // Should have no errors since all identifiers are valid
    assert_eq!(lexer.errors().len(), 0);
}

#[test]
fn simple_rune_parsing() {
    let input = r#"'a'"#;
    let mut lexer = Lexer::new(input);

    let token1 = lexer.next_token();
    assert_eq!(token1.kind, Some(TokenKind::RuneLiteral));

    let token2 = lexer.next_token();
    assert_eq!(token2.kind, Some(TokenKind::EOF));

    assert_eq!(lexer.errors().len(), 0);
}

#[test]
fn rune_with_escape_sequence() {
    let input = r#"'\n'"#;
    let mut lexer = Lexer::new(input);

    let token1 = lexer.next_token();
    assert_eq!(token1.kind, Some(TokenKind::RuneLiteral));

    let token2 = lexer.next_token();
    assert_eq!(token2.kind, Some(TokenKind::EOF));

    assert_eq!(lexer.errors().len(), 0);
}

#[test]
fn mixed_strings_and_runes() {
    let input = r#"'a' + "hello" + 'b'"#;
    let mut lexer = Lexer::new(input);

    // 'a' (rune)
    let token1 = lexer.next_token();
    assert_eq!(token1.kind, Some(TokenKind::RuneLiteral));

    // +
    let token2 = lexer.next_token();
    assert_eq!(token2.kind, Some(TokenKind::Operator(Operator::Plus)));

    // "hello" (string)
    let token3 = lexer.next_token();
    assert_eq!(token3.kind, Some(TokenKind::StringLiteral));

    // +
    let token4 = lexer.next_token();
    assert_eq!(token4.kind, Some(TokenKind::Operator(Operator::Plus)));

    // 'b' (rune)
    let token5 = lexer.next_token();
    assert_eq!(token5.kind, Some(TokenKind::RuneLiteral));

    // EOF
    let token6 = lexer.next_token();
    assert_eq!(token6.kind, Some(TokenKind::EOF));

    // No errors
    assert_eq!(lexer.errors().len(), 0);
}
