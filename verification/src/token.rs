//! A classified lexeme: its raw text, its resolved kind if it has one, and
//! its source position.

use vstd::prelude::*;
use vstd::string::*;
use crate::position::Position;
use crate::token_type::{spec_classify, Keyword, TokenKind};

verus! {

/// A token. `kind` is `None` for an unrecognized lexeme, for which a lexer
/// error was already recorded. The `value` of every ordinary token is the
/// exact source substring it was scanned from.
#[derive(Debug, PartialEq)]
pub struct Token {
    pub kind: Option<TokenKind>,
    pub value: String,
    pub position: Position,
}

/// The mathematical value of a [`Token`]: the same fields with the raw text
/// as a character sequence.
#[verifier::ext_equal]
pub struct TokenView {
    pub kind: Option<TokenKind>,
    pub value: Seq<char>,
    pub position: Position,
}

impl View for Token {
    type V = TokenView;

    open spec fn view(&self) -> TokenView {
        TokenView { kind: self.kind, value: self.value@, position: self.position }
    }
}

impl Clone for Token {
    fn clone(&self) -> (r: Token)
        ensures
            r@ == self@,
    {
        Token { kind: self.kind, value: self.value.clone(), position: self.position }
    }
}

/// The token kinds after which a newline ends a statement, following the
/// semicolon-insertion rule of the Go specification: identifiers, literals,
/// the keywords `break`, `continue`, `fallthrough` and `return`, and the
/// tokens `++`, `--`, `)`, `]` and `}`.
pub open spec fn ends_statement_at_newline(kind: Option<TokenKind>) -> bool {
    match kind {
        Some(TokenKind::Identifier) => true,
        Some(TokenKind::IntegerLiteral) => true,
        Some(TokenKind::FloatLiteral) => true,
        Some(TokenKind::RuneLiteral) => true,
        Some(TokenKind::StringLiteral) => true,
        Some(TokenKind::Keyword(Keyword::Break)) => true,
        Some(TokenKind::Keyword(Keyword::Continue)) => true,
        Some(TokenKind::Keyword(Keyword::Fallthrough)) => true,
        Some(TokenKind::Keyword(Keyword::Return)) => true,
        Some(TokenKind::PlusPlus) => true,
        Some(TokenKind::MinusMinus) => true,
        Some(TokenKind::RightParen) => true,
        Some(TokenKind::RightBracket) => true,
        Some(TokenKind::RightBrace) => true,
        _ => false,
    }
}

impl Token {
    /// A token whose kind is resolved by classifying the text.
    pub fn new(value: &str, position: Position) -> (t: Token)
        ensures
            t@ == (TokenView { kind: spec_classify(value@), value: value@, position }),
    {
        Token { kind: TokenKind::from_str(value), value: value.to_owned(), position }
    }

    /// A token with a kind fixed by the caller, for lexemes the scanner
    /// resolves itself, such as string literals and the end of input.
    pub fn new_with_kind(kind: TokenKind, value: &str, position: Position) -> (t: Token)
        ensures
            t@ == (TokenView { kind: Some(kind), value: value@, position }),
    {
        Token { kind: Some(kind), value: value.to_owned(), position }
    }

    /// The synthetic token a parser starts on, before any input was read.
    pub fn new_before_start() -> (t: Token)
        ensures
            t@ == (TokenView {
                kind: Some(TokenKind::BeforeStart),
                value: Seq::<char>::empty(),
                position: Position { line: 0, column_start: 0, column_end: 0 },
            }),
    {
        Token {
            kind: Some(TokenKind::BeforeStart),
            value: String::new(),
            position: Position { line: 0, column_start: 0, column_end: 0 },
        }
    }

    /// If this token precedes a newline outside a string, should the parser
    /// insert a semicolon?
    pub fn should_insert_semicolon(&self) -> (r: bool)
        ensures
            r == ends_statement_at_newline(self@.kind),
    {
        match self.kind {
            Some(TokenKind::Identifier) => true,
            Some(TokenKind::IntegerLiteral) => true,
            Some(TokenKind::FloatLiteral) => true,
            Some(TokenKind::RuneLiteral) => true,
            Some(TokenKind::StringLiteral) => true,
            Some(TokenKind::Keyword(Keyword::Break)) => true,
            Some(TokenKind::Keyword(Keyword::Continue)) => true,
            Some(TokenKind::Keyword(Keyword::Fallthrough)) => true,
            Some(TokenKind::Keyword(Keyword::Return)) => true,
            Some(TokenKind::PlusPlus) => true,
            Some(TokenKind::MinusMinus) => true,
            Some(TokenKind::RightParen) => true,
            Some(TokenKind::RightBracket) => true,
            Some(TokenKind::RightBrace) => true,
            _ => false,
        }
    }
}

} // verus!
