use gor::lexer::Lexer;
use gor::token_type::{Keyword, TokenKind};

#[test]
fn func_start() {
    let input = "func";
    let mut lexer = Lexer::new(input);
    let token = lexer.next_token();
    assert_eq!(token.kind, Some(TokenKind::Keyword(Keyword::Func)));
}

#[test]
fn break_start() {
    let input = "break";
    let mut lexer = Lexer::new(input);
    let token = lexer.next_token();
    assert_eq!(token.kind, Some(TokenKind::Keyword(Keyword::Break)));
}

#[test]
fn case_start() {
    let input = "case";
    let mut lexer = Lexer::new(input);
    let token = lexer.next_token();
    assert_eq!(token.kind, Some(TokenKind::Keyword(Keyword::Case)));
}

#[test]
fn chan_start() {
    let input = "chan";
    let mut lexer = Lexer::new(input);
    let token = lexer.next_token();
    assert_eq!(token.kind, Some(TokenKind::Keyword(Keyword::Chan)));
}

#[test]
fn const_start() {
    let input = "const";
    let mut lexer = Lexer::new(input);
    let token = lexer.next_token();
    assert_eq!(token.kind, Some(TokenKind::Keyword(Keyword::Const)));
}

#[test]
fn continue_start() {
    let input = "continue";
    let mut lexer = Lexer::new(input);
    let token = lexer.next_token();
    assert_eq!(token.kind, Some(TokenKind::Keyword(Keyword::Continue)));
}

#[test]
fn default_start() {
    let input = "default";
    let mut lexer = Lexer::new(input);
    let token = lexer.next_token();
    assert_eq!(token.kind, Some(TokenKind::Keyword(Keyword::Default)));
}

#[test]
fn defer_start() {
    let input = "defer";
    let mut lexer = Lexer::new(input);
    let token = lexer.next_token();
    assert_eq!(token.kind, Some(TokenKind::Keyword(Keyword::Defer)));
}

#[test]
fn else_start() {
    let input = "else";
    let mut lexer = Lexer::new(input);
    let token = lexer.next_token();
    assert_eq!(token.kind, Some(TokenKind::Keyword(Keyword::Else)));
}

#[test]
fn fallthrough_start() {
    let input = "fallthrough";
    let mut lexer = Lexer::new(input);
    let token = lexer.next_token();
    assert_eq!(token.kind, Some(TokenKind::Keyword(Keyword::Fallthrough)));
}

#[test]
fn for_start() {
    let input = "for";
    let mut lexer = Lexer::new(input);
    let token = lexer.next_token();
    assert_eq!(token.kind, Some(TokenKind::Keyword(Keyword::For)));
}

#[test]
fn go_start() {
    let input = "go";
    let mut lexer = Lexer::new(input);
    let token = lexer.next_token();
    assert_eq!(token.kind, Some(TokenKind::Keyword(Keyword::Go)));
}

#[test]
fn goto_start() {
    let input = "goto";
    let mut lexer = Lexer::new(input);
    let token = lexer.next_token();
    assert_eq!(token.kind, Some(TokenKind::Keyword(Keyword::Goto)));
}

#[test]
fn if_start() {
    let input = "if";
    let mut lexer = Lexer::new(input);
    let token = lexer.next_token();
    assert_eq!(token.kind, Some(TokenKind::Keyword(Keyword::If)));
}

#[test]
fn import_start() {
    let input = "import";
    let mut lexer = Lexer::new(input);
    let token = lexer.next_token();
    assert_eq!(token.kind, Some(TokenKind::Keyword(Keyword::Import)));
}

#[test]
fn map_start() {
    let input = "map";
    let mut lexer = Lexer::new(input);
    let token = lexer.next_token();
    assert_eq!(token.kind, Some(TokenKind::Keyword(Keyword::MapKw)));
}

#[test]
fn package_start() {
    let input = "package";
    let mut lexer = Lexer::new(input);
    let token = lexer.next_token();
    assert_eq!(token.kind, Some(TokenKind::Keyword(Keyword::Package)));
}

#[test]
fn range_start() {
    let input = "range";
    let mut lexer = Lexer::new(input);
    let token = lexer.next_token();
    assert_eq!(token.kind, Some(TokenKind::Keyword(Keyword::Range)));
}

#[test]
fn return_start() {
    let input = "return";
    let mut lexer = Lexer::new(input);
    let token = lexer.next_token();
    assert_eq!(token.kind, Some(TokenKind::Keyword(Keyword::Return)));
}

#[test]
fn struct_start() {
    let input = "struct";
    let mut lexer = Lexer::new(input);
    let token = lexer.next_token();
    assert_eq!(token.kind, Some(TokenKind::Keyword(Keyword::Struct)));
}

#[test]
fn switch_start() {
    let input = "switch";
    let mut lexer = Lexer::new(input);
    let token = lexer.next_token();
    assert_eq!(token.kind, Some(TokenKind::Keyword(Keyword::Switch)));
}

#[test]
fn type_start() {
    let input = "type";
    let mut lexer = Lexer::new(input);
    let token = lexer.next_token();
    assert_eq!(token.kind, Some(TokenKind::Keyword(Keyword::Type)));
}

#[test]
fn var_start() {
    let input = "var";
    let mut lexer = Lexer::new(input);
    let token = lexer.next_token();
    assert_eq!(token.kind, Some(TokenKind::Keyword(Keyword::Var)));
}

#[test]
fn interface_start() {
    let input = "interface";
    let mut lexer = Lexer::new(input);
    let token = lexer.next_token();
    assert_eq!(token.kind, Some(TokenKind::Keyword(Keyword::Interface)));
}

#[test]
fn select_start() {
    let input = "select";
    let mut lexer = Lexer::new(input);
    let token = lexer.next_token();
    assert_eq!(token.kind, Some(TokenKind::Keyword(Keyword::Select)));
}

#[test]
fn lexer_func_start() {
    let input = "func";
    let mut lexer = Lexer::new(input);
    let token = lexer.next_token();
    assert_eq!(token.kind, Some(TokenKind::Keyword(Keyword::Func)));
}

#[test]
fn lexer_break_start() {
    let input = "break";
    let mut lexer = Lexer::new(input);
    let token = lexer.next_token();
    assert_eq!(token.kind, Some(TokenKind::Keyword(Keyword::Break)));
}

#[test]
fn lexer_case_start() {
    let input = "case";
    let mut lexer = Lexer::new(input);
    let token = lexer.next_token();
    assert_eq!(token.kind, Some(TokenKind::Keyword(Keyword::Case)));
}

#[test]
fn lexer_chan_start() {
    let input = "chan";
    let mut lexer = Lexer::new(input);
    let token = lexer.next_token();
    assert_eq!(token.kind, Some(TokenKind::Keyword(Keyword::Chan)));
}

#[test]
fn lexer_const_start() {
    let input = "const";
    let mut lexer = Lexer::new(input);
    let token = lexer.next_token();
    assert_eq!(token.kind, Some(TokenKind::Keyword(Keyword::Const)));
}

#[test]
fn lexer_continue_start() {
    let input = "continue";
    let mut lexer = Lexer::new(input);
    let token = lexer.next_token();
    assert_eq!(token.kind, Some(TokenKind::Keyword(Keyword::Continue)));
}

#[test]
fn lexer_default_start() {
    let input = "default";
    let mut lexer = Lexer::new(input);
    let token = lexer.next_token();
    assert_eq!(token.kind, Some(TokenKind::Keyword(Keyword::Default)));
}

#[test]
fn lexer_defer_start() {
    let input = "defer";
    let mut lexer = Lexer::new(input);
    let token = lexer.next_token();
    assert_eq!(token.kind, Some(TokenKind::Keyword(Keyword::Defer)));
}

#[test]
fn lexer_else_start() {
    let input = "else";
    let mut lexer = Lexer::new(input);
    let token = lexer.next_token();
    assert_eq!(token.kind, Some(TokenKind::Keyword(Keyword::Else)));
}

#[test]
fn lexer_fallthrough_start() {
    let input = "fallthrough";
    let mut lexer = Lexer::new(input);
    let token = lexer.next_token();
    assert_eq!(token.kind, Some(TokenKind::Keyword(Keyword::Fallthrough)));
}

#[test]
fn lexer_for_start() {
    let input = "for";
    let mut lexer = Lexer::new(input);
    let token = lexer.next_token();
    assert_eq!(token.kind, Some(TokenKind::Keyword(Keyword::For)));
}

#[test]
fn lexer_go_start() {
    let input = "go";
    let mut lexer = Lexer::new(input);
    let token = lexer.next_token();
    assert_eq!(token.kind, Some(TokenKind::Keyword(Keyword::Go)));
}

#[test]
fn lexer_goto_start() {
    let input = "goto";
    let mut lexer = Lexer::new(input);
    let token = lexer.next_token();
    assert_eq!(token.kind, Some(TokenKind::Keyword(Keyword::Goto)));
}

#[test]
fn lexer_if_start() {
    let input = "if";
    let mut lexer = Lexer::new(input);
    let token = lexer.next_token();
    assert_eq!(token.kind, Some(TokenKind::Keyword(Keyword::If)));
}

#[test]
fn lexer_import_start() {
    let input = "import";
    let mut lexer = Lexer::new(input);
    let token = lexer.next_token();
    assert_eq!(token.kind, Some(TokenKind::Keyword(Keyword::Import)));
}

#[test]
fn lexer_map_start() {
    let input = "map";
    let mut lexer = Lexer::new(input);
    let token = lexer.next_token();
    assert_eq!(token.kind, Some(TokenKind::Keyword(Keyword::MapKw)));
}

#[test]
fn lexer_package_start() {
    let input = "package";
    let mut lexer = Lexer::new(input);
    let token = lexer.next_token();
    assert_eq!(token.kind, Some(TokenKind::Keyword(Keyword::Package)));
}

#[test]
fn lexer_range_start() {
    let input = "range";
    let mut lexer = Lexer::new(input);
    let token = lexer.next_token();
    assert_eq!(token.kind, Some(TokenKind::Keyword(Keyword::Range)));
}

#[test]
fn lexer_return_start() {
    let input = "return";
    let mut lexer = Lexer::new(input);
    let token = lexer.next_token();
    assert_eq!(token.kind, Some(TokenKind::Keyword(Keyword::Return)));
}

#[test]
fn lexer_struct_start() {
    let input = "struct";
    let mut lexer = Lexer::new(input);
    let token = lexer.next_token();
    assert_eq!(token.kind, Some(TokenKind::Keyword(Keyword::Struct)));
}

#[test]
fn lexer_switch_start() {
    let input = "switch";
    let mut lexer = Lexer::new(input);
    let token = lexer.next_token();
    assert_eq!(token.kind, Some(TokenKind::Keyword(Keyword::Switch)));
}

#[test]
fn lexer_type_start() {
    let input = "type";
    let mut lexer = Lexer::new(input);
    let token = lexer.next_token();
    assert_eq!(token.kind, Some(TokenKind::Keyword(Keyword::Type)));
}

#[test]
fn lexer_var_start() {
    let input = "var";
    let mut lexer = Lexer::new(input);
    let token = lexer.next_token();
    assert_eq!(token.kind, Some(TokenKind::Keyword(Keyword::Var)));
}
