//! Lexical, syntactic and internal error values. Errors are accumulated while
//! scanning and parsing, never fatal: each carries the exact source position
//! it was detected at.

use vstd::prelude::*;
use crate::position::Position;

verus! {

/// The ways a lexeme can fail to scan.
#[derive(Debug, Clone, PartialEq)]
pub enum LexerErrorKind {
    IncompleteToken(String),
    UnexpectedToken(String),
    UnterminatedString(String),
    UnterminatedRune(String),
}

/// A scan-level failure and where it happened.
#[derive(Debug, Clone, PartialEq)]
pub struct LexerError {
    pub kind: LexerErrorKind,
    pub position: Position,
}

/// The mathematical value of a [`LexerErrorKind`]: the same variants over
/// character sequences.
#[verifier::ext_equal]
pub enum LexerErrorKindView {
    IncompleteToken(Seq<char>),
    UnexpectedToken(Seq<char>),
    UnterminatedString(Seq<char>),
    UnterminatedRune(Seq<char>),
}

/// The mathematical value of a [`LexerError`].
#[verifier::ext_equal]
pub struct LexerErrorView {
    pub kind: LexerErrorKindView,
    pub position: Position,
}

impl View for LexerErrorKind {
    type V = LexerErrorKindView;

    open spec fn view(&self) -> LexerErrorKindView {
        match self {
            LexerErrorKind::IncompleteToken(s) => LexerErrorKindView::IncompleteToken(s@),
            LexerErrorKind::UnexpectedToken(s) => LexerErrorKindView::UnexpectedToken(s@),
            LexerErrorKind::UnterminatedString(s) => LexerErrorKindView::UnterminatedString(s@),
            LexerErrorKind::UnterminatedRune(s) => LexerErrorKindView::UnterminatedRune(s@),
        }
    }
}

impl View for LexerError {
    type V = LexerErrorView;

    open spec fn view(&self) -> LexerErrorView {
        LexerErrorView { kind: self.kind@, position: self.position }
    }
}

impl LexerError {
    pub fn new(kind: LexerErrorKind, position: Position) -> (e: LexerError)
        ensures
            e@ == (LexerErrorView { kind: kind@, position }),
    {
        LexerError { kind, position }
    }
}

/// The ways the parser can reject input.
#[derive(Debug, Clone, PartialEq)]
pub enum ParserErrorKind {
    LexerError(LexerError),
    UnexpectedToken(String),
    NotAPrimaryExpression(String),
    NotImplemented,
}

/// A syntax-level failure and where it happened.
#[derive(Debug, Clone, PartialEq)]
pub struct ParserError {
    pub kind: ParserErrorKind,
    pub position: Position,
}

/// The mathematical value of a [`ParserErrorKind`].
#[verifier::ext_equal]
pub enum ParserErrorKindView {
    LexerError(LexerErrorView),
    UnexpectedToken(Seq<char>),
    NotAPrimaryExpression(Seq<char>),
    NotImplemented,
}

/// The mathematical value of a [`ParserError`].
#[verifier::ext_equal]
pub struct ParserErrorView {
    pub kind: ParserErrorKindView,
    pub position: Position,
}

impl View for ParserErrorKind {
    type V = ParserErrorKindView;

    open spec fn view(&self) -> ParserErrorKindView {
        match self {
            ParserErrorKind::LexerError(e) => ParserErrorKindView::LexerError(e@),
            ParserErrorKind::UnexpectedToken(s) => ParserErrorKindView::UnexpectedToken(s@),
            ParserErrorKind::NotAPrimaryExpression(s) => ParserErrorKindView::NotAPrimaryExpression(
                s@,
            ),
            ParserErrorKind::NotImplemented => ParserErrorKindView::NotImplemented,
        }
    }
}

impl View for ParserError {
    type V = ParserErrorView;

    open spec fn view(&self) -> ParserErrorView {
        ParserErrorView { kind: self.kind@, position: self.position }
    }
}

impl ParserError {
    pub fn new(kind: ParserErrorKind, position: Position) -> (e: ParserError)
        ensures
            e@ == (ParserErrorView { kind: kind@, position }),
    {
        ParserError { kind, position }
    }
}

/// A condition that indicates a defect in this library itself rather than in
/// its input.
#[derive(Debug, Clone, PartialEq)]
pub enum ProgrammingErrorKind {
    LogicError(String),
}

#[derive(Debug, Clone, PartialEq)]
pub struct ProgrammingError {
    pub kind: ProgrammingErrorKind,
    pub position: Position,
}

/// The mathematical value of a [`ProgrammingErrorKind`].
#[verifier::ext_equal]
pub enum ProgrammingErrorKindView {
    LogicError(Seq<char>),
}

/// The mathematical value of a [`ProgrammingError`].
#[verifier::ext_equal]
pub struct ProgrammingErrorView {
    pub kind: ProgrammingErrorKindView,
    pub position: Position,
}

impl View for ProgrammingErrorKind {
    type V = ProgrammingErrorKindView;

    open spec fn view(&self) -> ProgrammingErrorKindView {
        match self {
            ProgrammingErrorKind::LogicError(s) => ProgrammingErrorKindView::LogicError(s@),
        }
    }
}

impl View for ProgrammingError {
    type V = ProgrammingErrorView;

    open spec fn view(&self) -> ProgrammingErrorView {
        ProgrammingErrorView { kind: self.kind@, position: self.position }
    }
}

impl ProgrammingError {
    pub fn new(kind: ProgrammingErrorKind, position: Position) -> (e: ProgrammingError)
        ensures
            e@ == (ProgrammingErrorView { kind: kind@, position }),
    {
        ProgrammingError { kind, position }
    }
}

} // verus!
