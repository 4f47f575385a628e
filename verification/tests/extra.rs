use gor::ast::{BinaryOperator, StatementKind};
use gor::errors::LexerErrorKind;
use gor::lexer::Lexer;
use gor::parser::Parser;
use gor::position::Position;
use gor::token::Token;
use gor::token_type::{Keyword, Operator, TokenKind};

#[test]
fn parse_idempotent() {
    let input = "package main\n\nimport \"fmt\"\n\nfunc main() {\n    fmt.Println(\"Hello, World!\")\n}\n";
    let mut first = Parser::new(input);
    let mut second = Parser::new(input);
    let program_a = first.parse().unwrap();
    let program_b = second.parse().unwrap();
    assert_eq!(program_a.statements, program_b.statements);
    assert_eq!(first.errors, second.errors);
}

#[test]
fn parse_idempotent_with_errors() {
    let input = "println println";
    let mut first = Parser::new(input);
    let mut second = Parser::new(input);
    let program_a = first.parse().unwrap();
    let program_b = second.parse().unwrap();
    assert_eq!(program_a.statements, program_b.statements);
    assert_eq!(first.errors, second.errors);
    assert!(!first.errors.is_empty());
}

#[test]
fn operator_precedence_values() {
    assert_eq!(Operator::PipePipe.precedence(), 1);
    assert_eq!(Operator::AndAnd.precedence(), 2);
    assert_eq!(Operator::EqualEqual.precedence(), 3);
    assert_eq!(Operator::Less.precedence(), 3);
    assert_eq!(Operator::Plus.precedence(), 4);
    assert_eq!(Operator::Caret.precedence(), 4);
    assert_eq!(Operator::Star.precedence(), 5);
    assert_eq!(Operator::AmpersandCaret.precedence(), 5);
}

#[test]
fn binary_operator_precedence_values() {
    assert_eq!(BinaryOperator::Equal.precedence(), 1);
    assert_eq!(BinaryOperator::GreaterEqual.precedence(), 1);
    assert_eq!(BinaryOperator::Add.precedence(), 2);
    assert_eq!(BinaryOperator::Subtract.precedence(), 2);
    assert_eq!(BinaryOperator::Multiply.precedence(), 3);
    assert_eq!(BinaryOperator::Modulo.precedence(), 3);
}

#[test]
fn should_insert_semicolon_kinds() {
    let pos = Position::new(1, 0, 1);
    assert!(Token::new("name", pos).should_insert_semicolon());
    assert!(Token::new("42", pos).should_insert_semicolon());
    assert!(Token::new("break", pos).should_insert_semicolon());
    assert!(Token::new("return", pos).should_insert_semicolon());
    assert!(Token::new("++", pos).should_insert_semicolon());
    assert!(Token::new(")", pos).should_insert_semicolon());
    assert!(Token::new("}", pos).should_insert_semicolon());
    assert!(!Token::new("func", pos).should_insert_semicolon());
    assert!(!Token::new("+", pos).should_insert_semicolon());
    assert!(!Token::new(",", pos).should_insert_semicolon());
}

#[test]
fn single_position_span_is_empty() {
    let p = Position::new_single_position(3, 7);
    assert_eq!(p.line, 3);
    assert_eq!(p.column_start, 7);
    assert_eq!(p.column_end, 7);
}

#[test]
fn before_start_token() {
    let t = Token::new_before_start();
    assert_eq!(t.kind, Some(TokenKind::BeforeStart));
    assert_eq!(t.value, "");
    assert_eq!(t.position, Position::new(0, 0, 0));
}

#[test]
fn peek_tokens_does_not_consume() {
    let input = "func main";
    let mut lexer = Lexer::new(input);
    let peeked = lexer.peek_tokens(2);
    assert_eq!(peeked.len(), 2);
    assert_eq!(peeked[0].kind, Some(TokenKind::Keyword(Keyword::Func)));
    assert_eq!(peeked[1].kind, Some(TokenKind::Identifier));
    let first = lexer.next_token();
    assert_eq!(first.kind, Some(TokenKind::Keyword(Keyword::Func)));
    assert_eq!(first.value, "func");
}

#[test]
fn newline_flag_is_consumed_once() {
    let input = "a\nb";
    let mut lexer = Lexer::new(input);
    let first = lexer.next_token();
    assert_eq!(first.value, "a");
    assert!(!lexer.had_newline_before_current_token());
    let second = lexer.next_token();
    assert_eq!(second.value, "b");
    assert!(lexer.had_newline_before_current_token());
    assert!(!lexer.had_newline_before_current_token());
}

#[test]
fn unexpected_character_is_an_error() {
    let input = "@";
    let mut lexer = Lexer::new(input);
    let token = lexer.next_token();
    assert_eq!(token.kind, None);
    assert_eq!(lexer.errors().len(), 1);
    assert_eq!(
        lexer.errors()[0].kind,
        LexerErrorKind::UnexpectedToken("@".to_string())
    );
    let eof = lexer.next_token();
    assert_eq!(eof.kind, Some(TokenKind::EOF));
}

#[test]
fn two_bad_lexemes_two_errors() {
    let input = "@ #";
    let mut lexer = Lexer::new(input);
    loop {
        if let Some(TokenKind::EOF) = lexer.next_token().kind {
            break;
        }
    }
    assert_eq!(lexer.errors().len(), 2);
}

#[test]
fn number_dot_number_scans_as_three_tokens() {
    let input = "12.5";
    let mut lexer = Lexer::new(input);
    let first = lexer.next_token();
    assert_eq!(first.kind, Some(TokenKind::IntegerLiteral));
    assert_eq!(first.value, "12");
    let second = lexer.next_token();
    assert_eq!(second.kind, Some(TokenKind::Dot));
    let third = lexer.next_token();
    assert_eq!(third.kind, Some(TokenKind::IntegerLiteral));
    assert_eq!(third.value, "5");
    assert_eq!(lexer.next_token().kind, Some(TokenKind::EOF));
}

#[test]
fn is_tokenizeable_examples() {
    assert!(TokenKind::is_tokenizeable("func"));
    assert!(TokenKind::is_tokenizeable("name1"));
    assert!(TokenKind::is_tokenizeable("123"));
    assert!(TokenKind::is_tokenizeable("<<="));
    assert!(!TokenKind::is_tokenizeable("@"));
    assert!(!TokenKind::is_tokenizeable("123abc"));
    assert!(!TokenKind::is_tokenizeable(""));
}

#[test]
fn could_match_examples() {
    assert!(TokenKind::could_match("<"));
    assert!(TokenKind::could_match("<<"));
    assert!(TokenKind::could_match(".."));
    assert!(TokenKind::could_match("fal"));
    assert!(TokenKind::could_match("12."));
    assert!(!TokenKind::could_match("@"));
    assert!(!TokenKind::could_match(".5"));
}

#[test]
fn package_declaration_content() {
    let input = "package main";
    let mut parser = Parser::new(input);
    let program = parser.parse().unwrap();
    assert_eq!(program.statements.len(), 1);
    assert_eq!(
        program.statements[0].kind,
        StatementKind::PackageDeclaration("main".to_string())
    );
    assert!(parser.errors.is_empty());
}

#[test]
fn import_declaration_content() {
    let input = "import \"fmt\"";
    let mut parser = Parser::new(input);
    let program = parser.parse().unwrap();
    assert_eq!(program.statements.len(), 1);
    assert_eq!(
        program.statements[0].kind,
        StatementKind::ImportDeclaration("fmt".to_string())
    );
    assert!(parser.errors.is_empty());
}

#[test]
fn function_declaration_content() {
    let input = "func main() {\n println(\"hi\")\n}";
    let mut parser = Parser::new(input);
    let program = parser.parse().unwrap();
    assert_eq!(program.statements.len(), 1);
    match &program.statements[0].kind {
        StatementKind::FunctionDeclaration { name, parameters, body } => {
            assert_eq!(name, "main");
            assert!(parameters.is_empty());
            assert_eq!(body.len(), 1);
        }
        other => panic!("expected a function declaration, got {:?}", other),
    }
    assert!(parser.errors.is_empty());
}

#[test]
fn asi_three_lines_three_statements() {
    let input = "println\nprintln\nprintln";
    let mut parser = Parser::new(input);
    let program = parser.parse().unwrap();
    assert_eq!(program.statements.len(), 3);
    assert!(parser.errors.is_empty());
}

#[test]
fn missing_separator_is_an_error() {
    let input = "println println";
    let mut parser = Parser::new(input);
    let _ = parser.parse();
    assert!(!parser.errors.is_empty());
}

#[test]
fn chained_calls_and_fields_nest() {
    let input = "a.b.c(d)";
    let mut parser = Parser::new(input);
    let program = parser.parse().unwrap();
    assert_eq!(program.statements.len(), 1);
    assert!(parser.errors.is_empty());
}

#[test]
fn unterminated_string_token_and_error() {
    let input = "\"hello world";
    let mut lexer = Lexer::new(input);
    let token = lexer.next_token();
    assert_eq!(token.kind, None);
    assert_eq!(lexer.errors().len(), 1);
    match &lexer.errors()[0].kind {
        LexerErrorKind::UnterminatedString(text) => assert_eq!(text, "\"hello world"),
        other => panic!("expected an unterminated string, got {:?}", other),
    }
}

#[test]
fn unterminated_rune_records_kind() {
    let input = "'hello world";
    let mut lexer = Lexer::new(input);
    let token = lexer.next_token();
    assert_eq!(token.kind, None);
    assert_eq!(lexer.errors().len(), 1);
    assert!(matches!(
        lexer.errors()[0].kind,
        LexerErrorKind::UnterminatedRune(_)
    ));
}

#[test]
fn apostrophe_inside_string_is_content() {
    let input = "\"don't\"";
    let mut lexer = Lexer::new(input);
    let token = lexer.next_token();
    assert_eq!(token.kind, Some(TokenKind::StringLiteral));
    assert_eq!(token.value, "\"don't\"");
    assert_eq!(lexer.next_token().kind, Some(TokenKind::EOF));
    assert_eq!(lexer.errors().len(), 0);
}

#[test]
fn double_quote_inside_rune_is_content() {
    let input = "'\"'";
    let mut lexer = Lexer::new(input);
    let token = lexer.next_token();
    assert_eq!(token.kind, Some(TokenKind::RuneLiteral));
    assert_eq!(token.value, "'\"'");
    assert_eq!(lexer.next_token().kind, Some(TokenKind::EOF));
    assert_eq!(lexer.errors().len(), 0);
}

#[test]
fn newline_ends_open_string() {
    let input = "\"abc\ndef";
    let mut lexer = Lexer::new(input);
    let token = lexer.next_token();
    assert_eq!(token.kind, None);
    assert_eq!(lexer.errors().len(), 1);
    match &lexer.errors()[0].kind {
        LexerErrorKind::UnterminatedString(text) => assert_eq!(text, "\"abc\n"),
        other => panic!("expected an unterminated string, got {:?}", other),
    }
    let after = lexer.next_token();
    assert_eq!(after.kind, Some(TokenKind::Identifier));
    assert_eq!(after.value, "def");
    assert_eq!(lexer.next_token().kind, Some(TokenKind::EOF));
    assert_eq!(lexer.errors().len(), 1);
}
