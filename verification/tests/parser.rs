use gor::ast::{Expression, ExpressionKind, StatementKind};
use gor::parser::Parser;
use gor::position::Position;
use gor::token::Token;
use gor::token_type::{Keyword, TokenKind};

#[test]
fn advance_simple() {
    let input = "func main";
    let mut parser = Parser::new(input);

    // First advance should get "func"
    parser.advance();
    let token = &parser.current_token;
    assert_eq!(token.kind, Some(TokenKind::Keyword(Keyword::Func)));
    assert_eq!(token.value, "func");

    // Peek should now be "main"
    assert_eq!(parser.peek_token.kind, Some(TokenKind::Identifier));
    assert_eq!(parser.peek_token.value, "main");
}

#[test]
fn advance_to_eof() {
    let input = "func";
    let mut parser = Parser::new(input);

    // First advance gets "func"
    parser.advance();
    assert_eq!(parser.current_token.kind, Some(TokenKind::Keyword(Keyword::Func)));

    // Second advance gets EOF
    parser.advance();
    assert_eq!(parser.current_token.kind, Some(TokenKind::EOF));

    // Peek should also be EOF
    assert_eq!(parser.peek_token.kind, Some(TokenKind::EOF));
}

#[test]
fn empty_input() {
    let input = "";
    let parser = Parser::new(input);

    // Should handle empty input gracefully
    assert_eq!(parser.peek_token.kind, Some(TokenKind::EOF));
    assert_eq!(parser.errors.len(), 0);
}

#[test]
fn expect_token_failure() {
    let input = "func main";
    let mut parser = Parser::new(input);

    // Expect "var" but get "func" - should fail and synchronize
    let _token = parser.expect_token(TokenKind::Keyword(Keyword::Var));
    assert_eq!(parser.errors.len(), 1);

    // Should have synchronized and advanced past the error
    assert!(parser.current_token.kind.is_some());
}

#[test]
fn expect_token_success() {
    let input = "func main";
    let mut parser = Parser::new(input);

    // Expect "func" - should succeed
    let token = parser.expect_token(TokenKind::Keyword(Keyword::Func)).unwrap();
    assert_eq!(token.kind, Some(TokenKind::Keyword(Keyword::Func)));
    assert_eq!(token.value, "func");
    assert_eq!(parser.errors.len(), 0);

    // Current token should now be "func", peek should be "main"
    assert_eq!(parser.current_token.kind, Some(TokenKind::Keyword(Keyword::Func)));
    assert_eq!(parser.peek_token.kind, Some(TokenKind::Identifier));
}

#[test]
fn multiple_advances() {
    let input = "func main ( ) { }";
    let mut parser = Parser::new(input);

    // Test sequence of advances
    parser.advance(); // func
    assert_eq!(parser.current_token.kind, Some(TokenKind::Keyword(Keyword::Func)));

    parser.advance(); // main
    assert_eq!(parser.current_token.kind, Some(TokenKind::Identifier));

    parser.advance(); // (
    assert_eq!(parser.current_token.kind, Some(TokenKind::LeftParen));

    parser.advance(); // )
    assert_eq!(parser.current_token.kind, Some(TokenKind::RightParen));

    parser.advance(); // {
    assert_eq!(parser.current_token.kind, Some(TokenKind::LeftBrace));

    parser.advance(); // }
    assert_eq!(parser.current_token.kind, Some(TokenKind::RightBrace));

    parser.advance(); // EOF
    assert_eq!(parser.current_token.kind, Some(TokenKind::EOF));
}

#[test]
fn parse_complete_hello_world() {
    let input = r#"package main

import "fmt"

func main() {
    fmt.Println("Hello, World!")
}
"#;
    let mut parser = Parser::new(input);
    let result = parser.parse();
    if let Err(ref errors) = result {
        println!("Parse errors: {:?}", errors);
    }
    if !parser.errors.is_empty() {
        println!("Parser errors: {:?}", parser.errors);
    }
    assert!(result.is_ok(), "Should parse complete Hello World program");
    let program = result.unwrap();
    println!("Parsed {} statements", program.statements.len());
    assert_eq!(program.statements.len(), 3); // package, import, func
}

#[test]
fn parse_import_declaration() {
    let input = r#"import "fmt""#;
    let mut parser = Parser::new(input);
    let result = parser.parse();
    assert!(result.is_ok(), "Should parse import declaration");
    let program = result.unwrap();
    assert_eq!(program.statements.len(), 1);
}

#[test]
fn parse_method_call() {
    let input = r#"fmt.Println("hello")"#;
    let mut parser = Parser::new(input);
    let result = parser.parse();
    assert!(result.is_ok(), "Should parse method call");
    let program = result.unwrap();
    assert_eq!(program.statements.len(), 1);
}

#[test]
fn parse_package_declaration() {
    let input = "package main";
    let mut parser = Parser::new(input);
    let result = parser.parse();
    assert!(result.is_ok(), "Should parse package declaration");
    let program = result.unwrap();
    assert_eq!(program.statements.len(), 1);
}

#[test]
fn parse_simple_function_call() {
    let input = r#"println("hello")"#;
    let mut parser = Parser::new(input);
    let result = parser.parse();
    assert!(result.is_ok(), "Should parse simple function call");
    let program = result.unwrap();
    assert_eq!(program.statements.len(), 1);
}

#[test]
fn parse_simple_function_declaration() {
    let input = "func main() {\n    println(\"hello\")\n}";
    let mut parser = Parser::new(input);
    let result = parser.parse();
    assert!(result.is_ok(), "Should parse function declaration");
    let program = result.unwrap();
    assert_eq!(program.statements.len(), 1);
}

#[test]
fn parse_string_literal() {
    let input = r#""Hello, World!""#;
    let mut parser = Parser::new(input);
    let result = parser.parse();
    assert!(result.is_ok(), "Should parse string literal");
    let program = result.unwrap();
    assert_eq!(program.statements.len(), 1);
}

#[test]
fn parser_initialization() {
    let input = "func main";
    let parser = Parser::new(input);

    // Parser should start "before" the first token
    assert_eq!(parser.current_token.kind, Some(TokenKind::BeforeStart));
    assert_eq!(parser.peek_token.kind, Some(TokenKind::Keyword(Keyword::Func)));
    assert_eq!(parser.errors.len(), 0);
}

#[test]
fn parser_parse_program() {
    let input = "identifier;";
    let mut parser = Parser::new(input);
    let program = parser.parse().unwrap();
    assert_eq!(program.statements.len(), 1);
    assert_eq!(
        program.statements[0].kind,
        StatementKind::Expression(Expression::new_identifier(
            "identifier".to_string(),
            Position::new(1, 0, 10)
        ))
    );
}

#[test]
fn peek_consistency() {
    let input = "func main ( )";
    let mut parser = Parser::new(input);

    // Peek should be consistent
    assert_eq!(parser.peek_token.kind, Some(TokenKind::Keyword(Keyword::Func)));
    assert_eq!(parser.peek_token.kind, Some(TokenKind::Keyword(Keyword::Func))); // Multiple peeks

    // Advance and check again
    parser.advance();
    assert_eq!(parser.peek_token.kind, Some(TokenKind::Identifier));
    assert_eq!(parser.peek_token.kind, Some(TokenKind::Identifier)); // Multiple peeks
}

#[test]
fn semicolon_insertion_multiline_with_newlines() {
    let input = "println\nprintln\nprintln";
    let mut parser = Parser::new(input);
    let result = parser.parse();
    assert!(
        result.is_ok(),
        "Should parse multiple lines without semicolons"
    );
    let program = result.unwrap();
    assert_eq!(program.statements.len(), 3);
}

#[test]
fn semicolon_insertion_multiple_statements_no_semicolon_error() {
    let input = "println println";
    let mut parser = Parser::new(input);
    let _ = parser.parse();
    assert!(
        !parser.errors.is_empty(),
        "Should have errors for multiple statements without semicolon"
    );
}

#[test]
fn semicolon_insertion_single_statement_no_semicolon() {
    let input = "println";
    let mut parser = Parser::new(input);
    let result = parser.parse();
    assert!(
        result.is_ok(),
        "Should parse single statement without semicolon"
    );
    let program = result.unwrap();
    assert_eq!(program.statements.len(), 1);
}

#[test]
fn semicolon_insertion_single_statement_with_semicolon() {
    let input = "println;";
    let mut parser = Parser::new(input);
    let result = parser.parse();
    assert!(
        result.is_ok(),
        "Should parse single statement with semicolon"
    );
    let program = result.unwrap();
    assert_eq!(program.statements.len(), 1);
}

#[test]
fn synchronize_to_eof() {
    let input = "func main";
    let mut parser = Parser::new(input);

    // Expect wrong token to trigger synchronization
    let _ = parser.expect_token(TokenKind::Keyword(Keyword::Var)); // Wrong token

    // Should synchronize to EOF since there's no semicolon
    assert_eq!(parser.errors.len(), 1);
}

#[test]
fn synchronize_to_semicolon() {
    let input = "func main ( ) ;";
    let mut parser = Parser::new(input);

    // Expect something wrong to trigger synchronization
    let _ = parser.expect_token(TokenKind::Keyword(Keyword::Var)); // Wrong token

    // Should have synchronized to before the semicolon
    assert_eq!(parser.errors.len(), 1);
}

#[test]
fn whitespace_handling() {
    let input = "  func   main  ";
    let mut parser = Parser::new(input);

    // Whitespace should be ignored
    assert_eq!(parser.peek_token.kind, Some(TokenKind::Keyword(Keyword::Func)));

    parser.advance();
    assert_eq!(parser.current_token.kind, Some(TokenKind::Keyword(Keyword::Func)));
    assert_eq!(parser.peek_token.kind, Some(TokenKind::Identifier));
}

#[test]
fn ast_expression_creation() {
    let position = Position::new(0, 0, 0);
    let expression = Expression::new_identifier("main".to_string(), position);
    assert_eq!(
        expression.kind,
        ExpressionKind::Identifier("main".to_string())
    );
    assert_eq!(expression.position_start, position);
    assert_eq!(expression.position_end, position);
}

#[test]
fn token_func_tokenizes() {
    let token = Token::new("func", Position::new(0, 0, 3));
    assert_eq!(token.kind, Some(TokenKind::Keyword(Keyword::Func)));
}
