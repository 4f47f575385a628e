use gor::lexer::Lexer;
use gor::token_type::{Operator, TokenKind};

#[test]
fn plus_start() {
    let input = "+";
    let mut lexer = Lexer::new(input);
    let token = lexer.next_token();
    assert_eq!(token.kind, Some(TokenKind::Operator(Operator::Plus)));
}

#[test]
fn minus_start() {
    let input = "-";
    let mut lexer = Lexer::new(input);
    let token = lexer.next_token();
    assert_eq!(token.kind, Some(TokenKind::Operator(Operator::Minus)));
}

#[test]
fn star_start() {
    let input = "*";
    let mut lexer = Lexer::new(input);
    let token = lexer.next_token();
    assert_eq!(token.kind, Some(TokenKind::Operator(Operator::Star)));
}

#[test]
fn slash_start() {
    let input = "/";
    let mut lexer = Lexer::new(input);
    let token = lexer.next_token();
    assert_eq!(token.kind, Some(TokenKind::Operator(Operator::Slash)));
}

#[test]
fn percent_start() {
    let input = "%";
    let mut lexer = Lexer::new(input);
    let token = lexer.next_token();
    assert_eq!(token.kind, Some(TokenKind::Operator(Operator::Percent)));
}

#[test]
fn ampersand_start() {
    let input = "&";
    let mut lexer = Lexer::new(input);
    let token = lexer.next_token();
    assert_eq!(token.kind, Some(TokenKind::Operator(Operator::Ampersand)));
}

#[test]
fn pipe_start() {
    let input = "|";
    let mut lexer = Lexer::new(input);
    let token = lexer.next_token();
    assert_eq!(token.kind, Some(TokenKind::Operator(Operator::Pipe)));
}

#[test]
fn caret_start() {
    let input = "^";
    let mut lexer = Lexer::new(input);
    let token = lexer.next_token();
    assert_eq!(token.kind, Some(TokenKind::Operator(Operator::Caret)));
}

#[test]
fn less_less_start() {
    let input = "<<";
    let mut lexer = Lexer::new(input);
    let token = lexer.next_token();
    assert_eq!(token.kind, Some(TokenKind::Operator(Operator::LessLess)));
}

#[test]
fn greater_greater_start() {
    let input = ">>";
    let mut lexer = Lexer::new(input);
    let token = lexer.next_token();
    assert_eq!(
        token.kind,
        Some(TokenKind::Operator(Operator::GreaterGreater))
    );
}

#[test]
fn ampersand_caret_start() {
    let input = "&^";
    let mut lexer = Lexer::new(input);
    let token = lexer.next_token();
    assert_eq!(
        token.kind,
        Some(TokenKind::Operator(Operator::AmpersandCaret))
    );
}

#[test]
fn plus_equal_start() {
    let input = "+=";
    let mut lexer = Lexer::new(input);
    let token = lexer.next_token();
    assert_eq!(token.kind, Some(TokenKind::PlusEqual));
}

#[test]
fn minus_equal_start() {
    let input = "-=";
    let mut lexer = Lexer::new(input);
    let token = lexer.next_token();
    assert_eq!(token.kind, Some(TokenKind::MinusEqual));
}

#[test]
fn star_equal_start() {
    let input = "*=";
    let mut lexer = Lexer::new(input);
    let token = lexer.next_token();
    assert_eq!(token.kind, Some(TokenKind::StarEqual));
}

#[test]
fn slash_equal_start() {
    let input = "/=";
    let mut lexer = Lexer::new(input);
    let token = lexer.next_token();
    assert_eq!(token.kind, Some(TokenKind::SlashEqual));
}

#[test]
fn percent_equal_start() {
    let input = "%=";
    let mut lexer = Lexer::new(input);
    let token = lexer.next_token();
    assert_eq!(token.kind, Some(TokenKind::PercentEqual));
}

#[test]
fn ampersand_equal_start() {
    let input = "&=";
    let mut lexer = Lexer::new(input);
    let token = lexer.next_token();
    assert_eq!(token.kind, Some(TokenKind::AmpersandEqual));
}

#[test]
fn pipe_equal_start() {
    let input = "|=";
    let mut lexer = Lexer::new(input);
    let token = lexer.next_token();
    assert_eq!(token.kind, Some(TokenKind::PipeEqual));
}

#[test]
fn caret_equal_start() {
    let input = "^=";
    let mut lexer = Lexer::new(input);
    let token = lexer.next_token();
    assert_eq!(token.kind, Some(TokenKind::CaretEqual));
}

#[test]
fn less_less_equal_start() {
    let input = "<<=";
    let mut lexer = Lexer::new(input);
    let token = lexer.next_token();
    assert_eq!(token.kind, Some(TokenKind::LessLessEqual));
}

#[test]
fn greater_greater_equal_start() {
    let input = ">>=";
    let mut lexer = Lexer::new(input);
    let token = lexer.next_token();
    assert_eq!(token.kind, Some(TokenKind::GreaterGreaterEqual));
}

#[test]
fn ampersand_caret_equal_start() {
    let input = "&^=";
    let mut lexer = Lexer::new(input);
    let token = lexer.next_token();
    assert_eq!(token.kind, Some(TokenKind::AmpersandCaretEqual));
}

#[test]
fn and_and_start() {
    let input = "&&";
    let mut lexer = Lexer::new(input);
    let token = lexer.next_token();
    assert_eq!(token.kind, Some(TokenKind::Operator(Operator::AndAnd)));
}

#[test]
fn pipe_pipe_start() {
    let input = "||";
    let mut lexer = Lexer::new(input);
    let token = lexer.next_token();
    assert_eq!(token.kind, Some(TokenKind::Operator(Operator::PipePipe)));
}

#[test]
fn less_minus_start() {
    let input = "<-";
    let mut lexer = Lexer::new(input);
    let token = lexer.next_token();
    assert_eq!(token.kind, Some(TokenKind::LessMinus));
}

#[test]
fn plus_plus_start() {
    let input = "++";
    let mut lexer = Lexer::new(input);
    let token = lexer.next_token();
    assert_eq!(token.kind, Some(TokenKind::PlusPlus));
}

#[test]
fn minus_minus_start() {
    let input = "--";
    let mut lexer = Lexer::new(input);
    let token = lexer.next_token();
    assert_eq!(token.kind, Some(TokenKind::MinusMinus));
}

#[test]
fn equal_equal_start() {
    let input = "==";
    let mut lexer = Lexer::new(input);
    let token = lexer.next_token();
    assert_eq!(token.kind, Some(TokenKind::Operator(Operator::EqualEqual)));
}

#[test]
fn bang_equal_start() {
    let input = "!=";
    let mut lexer = Lexer::new(input);
    let token = lexer.next_token();
    assert_eq!(token.kind, Some(TokenKind::Operator(Operator::BangEqual)));
}

#[test]
fn less_start() {
    let input = "<";
    let mut lexer = Lexer::new(input);
    let token = lexer.next_token();
    assert_eq!(token.kind, Some(TokenKind::Operator(Operator::Less)));
}

#[test]
fn less_equal_start() {
    let input = "<=";
    let mut lexer = Lexer::new(input);
    let token = lexer.next_token();
    assert_eq!(token.kind, Some(TokenKind::Operator(Operator::LessEqual)));
}

#[test]
fn greater_start() {
    let input = ">";
    let mut lexer = Lexer::new(input);
    let token = lexer.next_token();
    assert_eq!(token.kind, Some(TokenKind::Operator(Operator::Greater)));
}

#[test]
fn greater_equal_start() {
    let input = ">=";
    let mut lexer = Lexer::new(input);
    let token = lexer.next_token();
    assert_eq!(
        token.kind,
        Some(TokenKind::Operator(Operator::GreaterEqual))
    );
}

#[test]
fn equal_start() {
    let input = "=";
    let mut lexer = Lexer::new(input);
    let token = lexer.next_token();
    assert_eq!(token.kind, Some(TokenKind::Equal));
}

#[test]
fn colon_equal_start() {
    let input = ":=";
    let mut lexer = Lexer::new(input);
    let token = lexer.next_token();
    assert_eq!(token.kind, Some(TokenKind::ColonEqual));
}

#[test]
fn bang_start() {
    let input = "!";
    let mut lexer = Lexer::new(input);
    let token = lexer.next_token();
    assert_eq!(token.kind, Some(TokenKind::Bang));
}

#[test]
fn dot_dot_dot_start() {
    let input = "...";
    let mut lexer = Lexer::new(input);
    let token = lexer.next_token();
    assert_eq!(token.kind, Some(TokenKind::DotDotDot));
}

#[test]
fn dot_start() {
    let input = ".";
    let mut lexer = Lexer::new(input);
    let token = lexer.next_token();
    assert_eq!(token.kind, Some(TokenKind::Dot));
}

#[test]
fn colon_start() {
    let input = ":";
    let mut lexer = Lexer::new(input);
    let token = lexer.next_token();
    assert_eq!(token.kind, Some(TokenKind::Colon));
}

#[test]
fn comma_start() {
    let input = ",";
    let mut lexer = Lexer::new(input);
    let token = lexer.next_token();
    assert_eq!(token.kind, Some(TokenKind::Comma));
}

#[test]
fn semicolon_start() {
    let input = ";";
    let mut lexer = Lexer::new(input);
    let token = lexer.next_token();
    assert_eq!(token.kind, Some(TokenKind::Semicolon));
}

#[test]
fn left_bracket_start() {
    let input = "[";
    let mut lexer = Lexer::new(input);
    let token = lexer.next_token();
    assert_eq!(token.kind, Some(TokenKind::LeftBracket));
}

#[test]
fn right_bracket_start() {
    let input = "]";
    let mut lexer = Lexer::new(input);
    let token = lexer.next_token();
    assert_eq!(token.kind, Some(TokenKind::RightBracket));
}

#[test]
fn left_brace_start() {
    let input = "{";
    let mut lexer = Lexer::new(input);
    let token = lexer.next_token();
    assert_eq!(token.kind, Some(TokenKind::LeftBrace));
}

#[test]
fn right_brace_start() {
    let input = "}";
    let mut lexer = Lexer::new(input);
    let token = lexer.next_token();
    assert_eq!(token.kind, Some(TokenKind::RightBrace));
}

#[test]
fn eof_start() {
    let input = "";
    let mut lexer = Lexer::new(input);
    let token = lexer.next_token();
    assert_eq!(token.kind, Some(TokenKind::EOF));
}

#[test]
fn left_paren_start() {
    let input = "(";
    let mut lexer = Lexer::new(input);
    let token = lexer.next_token();
    assert_eq!(token.kind, Some(TokenKind::LeftParen));
}

#[test]
fn right_paren_start() {
    let input = ")";
    let mut lexer = Lexer::new(input);
    let token = lexer.next_token();
    assert_eq!(token.kind, Some(TokenKind::RightParen));
}

#[test]
fn lexer_plus_start() {
    let input = "+";
    let mut lexer = Lexer::new(input);
    let token = lexer.next_token();
    assert_eq!(token.kind, Some(TokenKind::Operator(Operator::Plus)));
}

#[test]
fn lexer_minus_start() {
    let input = "-";
    let mut lexer = Lexer::new(input);
    let token = lexer.next_token();
    assert_eq!(token.kind, Some(TokenKind::Operator(Operator::Minus)));
}

#[test]
fn lexer_star_start() {
    let input = "*";
    let mut lexer = Lexer::new(input);
    let token = lexer.next_token();
    assert_eq!(token.kind, Some(TokenKind::Operator(Operator::Star)));
}

#[test]
fn lexer_slash_start() {
    let input = "/";
    let mut lexer = Lexer::new(input);
    let token = lexer.next_token();
    assert_eq!(token.kind, Some(TokenKind::Operator(Operator::Slash)));
}

#[test]
fn lexer_percent_start() {
    let input = "%";
    let mut lexer = Lexer::new(input);
    let token = lexer.next_token();
    assert_eq!(token.kind, Some(TokenKind::Operator(Operator::Percent)));
}

#[test]
fn lexer_ampersand_start() {
    let input = "&";
    let mut lexer = Lexer::new(input);
    let token = lexer.next_token();
    assert_eq!(token.kind, Some(TokenKind::Operator(Operator::Ampersand)));
}

#[test]
fn lexer_pipe_start() {
    let input = "|";
    let mut lexer = Lexer::new(input);
    let token = lexer.next_token();
    assert_eq!(token.kind, Some(TokenKind::Operator(Operator::Pipe)));
}

#[test]
fn lexer_caret_start() {
    let input = "^";
    let mut lexer = Lexer::new(input);
    let token = lexer.next_token();
    assert_eq!(token.kind, Some(TokenKind::Operator(Operator::Caret)));
}

#[test]
fn lexer_less_less_start() {
    let input = "<<";
    let mut lexer = Lexer::new(input);
    let token = lexer.next_token();
    assert_eq!(token.kind, Some(TokenKind::Operator(Operator::LessLess)));
}

#[test]
fn lexer_greater_greater_start() {
    let input = ">>";
    let mut lexer = Lexer::new(input);
    let token = lexer.next_token();
    assert_eq!(token.kind, Some(TokenKind::Operator(Operator::GreaterGreater)));
}

#[test]
fn lexer_ampersand_caret_start() {
    let input = "&^";
    let mut lexer = Lexer::new(input);
    let token = lexer.next_token();
    assert_eq!(token.kind, Some(TokenKind::Operator(Operator::AmpersandCaret)));
}

#[test]
fn lexer_plus_equal_start() {
    let input = "+=";
    let mut lexer = Lexer::new(input);
    let token = lexer.next_token();
    assert_eq!(token.kind, Some(TokenKind::PlusEqual));
}

#[test]
fn lexer_minus_equal_start() {
    let input = "-=";
    let mut lexer = Lexer::new(input);
    let token = lexer.next_token();
    assert_eq!(token.kind, Some(TokenKind::MinusEqual));
}

#[test]
fn lexer_star_equal_start() {
    let input = "*=";
    let mut lexer = Lexer::new(input);
    let token = lexer.next_token();
    assert_eq!(token.kind, Some(TokenKind::StarEqual));
}

#[test]
fn lexer_slash_equal_start() {
    let input = "/=";
    let mut lexer = Lexer::new(input);
    let token = lexer.next_token();
    assert_eq!(token.kind, Some(TokenKind::SlashEqual));
}

#[test]
fn lexer_percent_equal_start() {
    let input = "%=";
    let mut lexer = Lexer::new(input);
    let token = lexer.next_token();
    assert_eq!(token.kind, Some(TokenKind::PercentEqual));
}

#[test]
fn lexer_ampersand_equal_start() {
    let input = "&=";
    let mut lexer = Lexer::new(input);
    let token = lexer.next_token();
    assert_eq!(token.kind, Some(TokenKind::AmpersandEqual));
}

#[test]
fn lexer_pipe_equal_start() {
    let input = "|=";
    let mut lexer = Lexer::new(input);
    let token = lexer.next_token();
    assert_eq!(token.kind, Some(TokenKind::PipeEqual));
}

#[test]
fn lexer_caret_equal_start() {
    let input = "^=";
    let mut lexer = Lexer::new(input);
    let token = lexer.next_token();
    assert_eq!(token.kind, Some(TokenKind::CaretEqual));
}

#[test]
fn lexer_less_less_equal_start() {
    let input = "<<=";
    let mut lexer = Lexer::new(input);
    let token = lexer.next_token();
    assert_eq!(token.kind, Some(TokenKind::LessLessEqual));
}

#[test]
fn lexer_greater_greater_equal_start() {
    let input = ">>=";
    let mut lexer = Lexer::new(input);
    let token = lexer.next_token();
    assert_eq!(token.kind, Some(TokenKind::GreaterGreaterEqual));
}

#[test]
fn lexer_ampersand_caret_equal_start() {
    let input = "&^=";
    let mut lexer = Lexer::new(input);
    let token = lexer.next_token();
    assert_eq!(token.kind, Some(TokenKind::AmpersandCaretEqual));
}

#[test]
fn lexer_and_and_start() {
    let input = "&&";
    let mut lexer = Lexer::new(input);
    let token = lexer.next_token();
    assert_eq!(token.kind, Some(TokenKind::Operator(Operator::AndAnd)));
}

#[test]
fn lexer_pipe_pipe_start() {
    let input = "||";
    let mut lexer = Lexer::new(input);
    let token = lexer.next_token();
    assert_eq!(token.kind, Some(TokenKind::Operator(Operator::PipePipe)));
}

#[test]
fn lexer_less_minus_start() {
    let input = "<-";
    let mut lexer = Lexer::new(input);
    let token = lexer.next_token();
    assert_eq!(token.kind, Some(TokenKind::LessMinus));
}

#[test]
fn lexer_plus_plus_start() {
    let input = "++";
    let mut lexer = Lexer::new(input);
    let token = lexer.next_token();
    assert_eq!(token.kind, Some(TokenKind::PlusPlus));
}

#[test]
fn lexer_minus_minus_start() {
    let input = "--";
    let mut lexer = Lexer::new(input);
    let token = lexer.next_token();
    assert_eq!(token.kind, Some(TokenKind::MinusMinus));
}

#[test]
fn lexer_equal_equal_start() {
    let input = "==";
    let mut lexer = Lexer::new(input);
    let token = lexer.next_token();
    assert_eq!(token.kind, Some(TokenKind::Operator(Operator::EqualEqual)));
}

#[test]
fn lexer_bang_equal_start() {
    let input = "!=";
    let mut lexer = Lexer::new(input);
    let token = lexer.next_token();
    assert_eq!(token.kind, Some(TokenKind::Operator(Operator::BangEqual)));
}

#[test]
fn lexer_less_start() {
    let input = "<";
    let mut lexer = Lexer::new(input);
    let token = lexer.next_token();
    assert_eq!(token.kind, Some(TokenKind::Operator(Operator::Less)));
}

#[test]
fn lexer_less_equal_start() {
    let input = "<=";
    let mut lexer = Lexer::new(input);
    let token = lexer.next_token();
    assert_eq!(token.kind, Some(TokenKind::Operator(Operator::LessEqual)));
}

#[test]
fn lexer_greater_start() {
    let input = ">";
    let mut lexer = Lexer::new(input);
    let token = lexer.next_token();
    assert_eq!(token.kind, Some(TokenKind::Operator(Operator::Greater)));
}

#[test]
fn lexer_greater_equal_start() {
    let input = ">=";
    let mut lexer = Lexer::new(input);
    let token = lexer.next_token();
    assert_eq!(token.kind, Some(TokenKind::Operator(Operator::GreaterEqual)));
}

#[test]
fn lexer_equal_start() {
    let input = "=";
    let mut lexer = Lexer::new(input);
    let token = lexer.next_token();
    assert_eq!(token.kind, Some(TokenKind::Equal));
}

#[test]
fn lexer_colon_equal_start() {
    let input = ":=";
    let mut lexer = Lexer::new(input);
    let token = lexer.next_token();
    assert_eq!(token.kind, Some(TokenKind::ColonEqual));
}

#[test]
fn lexer_bang_start() {
    let input = "!";
    let mut lexer = Lexer::new(input);
    let token = lexer.next_token();
    assert_eq!(token.kind, Some(TokenKind::Bang));
}

#[test]
fn lexer_dot_dot_dot_start() {
    let input = "...";
    let mut lexer = Lexer::new(input);
    let token = lexer.next_token();
    assert_eq!(token.kind, Some(TokenKind::DotDotDot));
}

#[test]
fn lexer_dot_start() {
    let input = ".";
    let mut lexer = Lexer::new(input);
    let token = lexer.next_token();
    assert_eq!(token.kind, Some(TokenKind::Dot));
}

#[test]
fn lexer_colon_start() {
    let input = ":";
    let mut lexer = Lexer::new(input);
    let token = lexer.next_token();
    assert_eq!(token.kind, Some(TokenKind::Colon));
}

#[test]
fn lexer_comma_start() {
    let input = ",";
    let mut lexer = Lexer::new(input);
    let token = lexer.next_token();
    assert_eq!(token.kind, Some(TokenKind::Comma));
}

#[test]
fn lexer_semicolon_start() {
    let input = ";";
    let mut lexer = Lexer::new(input);
    let token = lexer.next_token();
    assert_eq!(token.kind, Some(TokenKind::Semicolon));
}

#[test]
fn lexer_left_bracket_start() {
    let input = "[";
    let mut lexer = Lexer::new(input);
    let token = lexer.next_token();
    assert_eq!(token.kind, Some(TokenKind::LeftBracket));
}

#[test]
fn lexer_right_bracket_start() {
    let input = "]";
    let mut lexer = Lexer::new(input);
    let token = lexer.next_token();
    assert_eq!(token.kind, Some(TokenKind::RightBracket));
}

#[test]
fn lexer_left_brace_start() {
    let input = "{";
    let mut lexer = Lexer::new(input);
    let token = lexer.next_token();
    assert_eq!(token.kind, Some(TokenKind::LeftBrace));
}

#[test]
fn lexer_right_brace_start() {
    let input = "}";
    let mut lexer = Lexer::new(input);
    let token = lexer.next_token();
    assert_eq!(token.kind, Some(TokenKind::RightBrace));
}

#[test]
fn lexer_eof_start() {
    let input = "";
    let mut lexer = Lexer::new(input);
    let token = lexer.next_token();
    assert_eq!(token.kind, Some(TokenKind::EOF));
}
