//! The recursive-descent parser: pulls tokens from an internally owned
//! tokenizer with one-token lookahead and builds a [`Program`], recovering
//! from malformed input by synchronizing to the next statement boundary
//! instead of aborting.
//!
//! The parser is specified by a family of `sp_` functions that interpret the
//! grammar over the mathematical scanner model [`lex_next`]: each exec method
//! is proved to return exactly what its spec function computes. Parsing is
//! therefore a function of the input text alone.

use vstd::prelude::*;
use vstd::string::*;
use crate::ast::{
    Expression, ExpressionKindView, ExpressionView, Program, ProgramView, Statement,
    StatementKindView, StatementView,
};
use crate::errors::{
    LexerError, LexerErrorKind, LexerErrorView, ParserError, ParserErrorKind, ParserErrorKindView,
    ParserErrorView,
};
use crate::lexer::{lex_next, Lexer};
use crate::position::Position;
use crate::token::{Token, TokenView};
use crate::token_type::{Keyword, TokenKind};

verus! {

/// The parser's state between steps: the scanner state, the consumed and
/// lookahead tokens, and the recorded parser errors.
#[verifier::ext_equal]
pub struct PState {
    pub pos: int,
    pub in_string: bool,
    pub in_rune: bool,
    pub lex_newline: bool,
    pub lex_errors: Seq<LexerErrorView>,
    pub current: TokenView,
    pub peek: TokenView,
    pub errors: Seq<ParserErrorView>,
}

/// The mathematical value of a [`Parser`]: the input text and the state.
#[verifier::ext_equal]
pub struct ParserView {
    pub input: Seq<char>,
    pub st: PState,
}

pub open spec fn sp_valid(input: Seq<char>, st: PState) -> bool {
    0 <= st.pos <= input.len()
}

/// The termination measure of the parser: every token pull either consumes
/// input, closes an open literal, or turns the lookahead into `EOF`.
pub open spec fn pmeasure(input: Seq<char>, st: PState) -> int {
    2 * (input.len() - st.pos) + (if st.in_string {
        1int
    } else {
        0int
    }) + (if st.in_rune {
        1int
    } else {
        0int
    }) + (if st.peek.kind == Some(TokenKind::EOF) {
        0int
    } else {
        1int
    })
}

/// Shifts the lookahead token into the current slot and pulls a fresh
/// lookahead from the scanner, unless the stream already ended.
pub open spec fn sp_advance(input: Seq<char>, st: PState) -> PState {
    if st.peek.kind != Some(TokenKind::EOF) {
        let step = lex_next(input, st.pos, st.in_string, st.in_rune);
        PState {
            pos: step.new_pos,
            in_string: step.in_string,
            in_rune: step.in_rune,
            lex_newline: st.lex_newline || step.newline,
            lex_errors: st.lex_errors + crate::lexer::error_seq(step.error),
            current: st.peek,
            peek: step.token,
            errors: st.errors,
        }
    } else {
        PState {
            current: st.peek,
            peek: TokenView {
                kind: Some(TokenKind::EOF),
                value: Seq::empty(),
                position: st.peek.position,
            },
            ..st
        }
    }
}

/// One scanner call never moves backwards, and it makes progress: the
/// measure drops except when it returns `EOF` from a closed, exhausted
/// state.
pub proof fn lemma_lex_scan_measure(input: Seq<char>, pos: int, anchor: int, in_s: bool, in_r: bool)
    requires
        0 <= anchor <= pos <= input.len(),
    ensures
        ({
            let res = crate::lexer::lex_scan(input, pos, anchor, in_s, in_r);
            &&& anchor <= res.new_pos <= input.len()
            &&& 2 * (input.len() - res.new_pos) + (if res.in_string {
                1int
            } else {
                0int
            }) + (if res.in_rune {
                1int
            } else {
                0int
            }) <= 2 * (input.len() - pos) + (if in_s {
                1int
            } else {
                0int
            }) + (if in_r {
                1int
            } else {
                0int
            }) + (if pos > anchor {
                1int
            } else {
                0int
            })
            &&& (2 * (input.len() - res.new_pos) + (if res.in_string {
                1int
            } else {
                0int
            }) + (if res.in_rune {
                1int
            } else {
                0int
            }) == 2 * (input.len() - pos) + (if in_s {
                1int
            } else {
                0int
            }) + (if in_r {
                1int
            } else {
                0int
            }) + (if pos > anchor {
                1int
            } else {
                0int
            })) ==> res.token.kind == Some(TokenKind::EOF)
        }),
    decreases input.len() - pos,
{
    if pos >= input.len() {
    } else {
        let c = input[pos];
        let p1 = pos + 1;
        if crate::token_type::is_space_char(c) && !in_s && !in_r {
            lemma_lex_scan_measure(input, p1, p1, false, false);
        } else if in_s {
            if c == '"' {
            } else if c == '\n' {
            } else if c == '\\' {
                lemma_lex_scan_measure(
                    input,
                    if p1 < input.len() {
                        p1 + 1
                    } else {
                        p1
                    },
                    anchor,
                    in_s,
                    in_r,
                );
            } else {
                lemma_lex_scan_measure(input, p1, anchor, in_s, in_r);
            }
        } else if in_r {
            if c == '\'' {
            } else if crate::token_type::is_space_char(c) {
            } else if c == '\\' {
                lemma_lex_scan_measure(
                    input,
                    if p1 < input.len() {
                        p1 + 1
                    } else {
                        p1
                    },
                    anchor,
                    in_s,
                    in_r,
                );
            } else {
                lemma_lex_scan_measure(input, p1, anchor, in_s, in_r);
            }
        } else if c == '"' {
            lemma_lex_scan_measure(input, p1, pos, true, in_r);
        } else if c == '\'' {
            lemma_lex_scan_measure(input, p1, pos, in_s, true);
        } else if crate::lexer::is_symbol_char(c) {
            if anchor < pos && !crate::lexer::all_symbol_chars(input.subrange(anchor, pos)) {
            } else {
                match crate::lexer::spec_tokenize(input, anchor, p1) {
                    crate::lexer::ScanDecision::Accumulate => {
                        lemma_lex_scan_measure(input, p1, anchor, in_s, in_r);
                    },
                    _ => {},
                }
            }
        } else {
            match crate::lexer::spec_tokenize(input, anchor, p1) {
                crate::lexer::ScanDecision::Accumulate => {
                    lemma_lex_scan_measure(input, p1, anchor, in_s, in_r);
                },
                _ => {},
            }
        }
    }
}

/// Advancing on a non-`EOF` lookahead strictly decreases the measure, and
/// advancing never breaks validity.
pub proof fn lemma_advance(input: Seq<char>, st: PState)
    requires
        sp_valid(input, st),
    ensures
        sp_valid(input, sp_advance(input, st)),
        st.peek.kind != Some(TokenKind::EOF) ==> pmeasure(input, sp_advance(input, st)) < pmeasure(
            input,
            st,
        ),
        st.peek.kind == Some(TokenKind::EOF) ==> pmeasure(input, sp_advance(input, st)) == pmeasure(
            input,
            st,
        ),
{
    if st.peek.kind != Some(TokenKind::EOF) {
        lemma_lex_scan_measure(input, st.pos, st.pos, st.in_string, st.in_rune);
    }
}

/// Discards tokens until the lookahead is a semicolon or the end of input:
/// the parser's recovery boundary.
pub open spec fn sp_sync(input: Seq<char>, st: PState) -> PState
    decreases pmeasure(input, st),
        when sp_valid(input, st)
        via sp_sync_dec
{
    if st.peek.kind == Some(TokenKind::EOF) || st.peek.kind == Some(TokenKind::Semicolon) {
        st
    } else {
        sp_sync(input, sp_advance(input, st))
    }
}

#[via_fn]
proof fn sp_sync_dec(input: Seq<char>, st: PState) {
    if !(st.peek.kind == Some(TokenKind::EOF) || st.peek.kind == Some(TokenKind::Semicolon)) {
        lemma_advance(input, st);
    }
}

/// Synchronizing stops at a semicolon or `EOF`, never moves backwards, and
/// records nothing.
pub proof fn lemma_sync(input: Seq<char>, st: PState)
    requires
        sp_valid(input, st),
    ensures
        sp_valid(input, sp_sync(input, st)),
        pmeasure(input, sp_sync(input, st)) <= pmeasure(input, st),
        sp_sync(input, st).errors == st.errors,
        sp_sync(input, st).peek.kind == Some(TokenKind::EOF) || sp_sync(input, st).peek.kind
            == Some(TokenKind::Semicolon),
    decreases pmeasure(input, st),
{
    if st.peek.kind == Some(TokenKind::EOF) || st.peek.kind == Some(TokenKind::Semicolon) {
    } else {
        lemma_advance(input, st);
        lemma_sync(input, sp_advance(input, st));
    }
}

/// Consumes the lookahead if it has the wanted kind; otherwise records an
/// `UnexpectedToken` error and synchronizes.
pub open spec fn sp_expect(input: Seq<char>, st: PState, kind: TokenKind) -> (Result<
    TokenView,
    ParserErrorView,
>, PState) {
    if st.peek.kind == Some(kind) {
        (Ok(st.peek), sp_advance(input, st))
    } else {
        let e = ParserErrorView {
            kind: ParserErrorKindView::UnexpectedToken(st.peek.value),
            position: st.peek.position,
        };
        (Err(e), sp_sync(input, PState { errors: st.errors.push(e), ..st }))
    }
}

/// A successful expectation consumes a token; a failed one only grows the
/// error list.
pub proof fn lemma_expect(input: Seq<char>, st: PState, kind: TokenKind)
    requires
        sp_valid(input, st),
    ensures
        ({
            let (r, st1) = sp_expect(input, st, kind);
            &&& sp_valid(input, st1)
            &&& (r is Ok && kind != TokenKind::EOF ==> pmeasure(input, st1) < pmeasure(input, st))
            &&& (r is Ok ==> st1.errors == st.errors && pmeasure(input, st1) <= pmeasure(input, st))
            &&& (r is Err ==> pmeasure(input, st1) <= pmeasure(input, st) && st1.errors
                == st.errors.push(r->Err_0))
        }),
{
    if st.peek.kind == Some(kind) {
        lemma_advance(input, st);
    } else {
        let e = ParserErrorView {
            kind: ParserErrorKindView::UnexpectedToken(st.peek.value),
            position: st.peek.position,
        };
        lemma_sync(input, PState { errors: st.errors.push(e), ..st });
    }
}

/// The statement terminator: an explicit semicolon is consumed; otherwise
/// the boundary is accepted only at the end of input or after a newline
/// (Go-style automatic semicolon insertion), which consumes the newline
/// flag.
pub open spec fn sp_handle_semi(input: Seq<char>, st: PState) -> (Result<
    Position,
    ParserErrorView,
>, PState) {
    if st.peek.kind == Some(TokenKind::Semicolon) {
        let st1 = sp_advance(input, st);
        (Ok(st1.current.position), st1)
    } else if st.peek.kind == Some(TokenKind::EOF) {
        (Ok(st.current.position), st)
    } else {
        let st1 = PState { lex_newline: false, ..st };
        if st.lex_newline {
            (Ok(st.current.position), st1)
        } else {
            (
                Err(
                    ParserErrorView {
                        kind: ParserErrorKindView::UnexpectedToken(
                            "Expected ';' to separate statements on same line, got '"@
                                + st.peek.value + "'"@,
                        ),
                        position: st.peek.position,
                    },
                ),
                st1,
            )
        }
    }
}

pub proof fn lemma_handle_semi(input: Seq<char>, st: PState)
    requires
        sp_valid(input, st),
    ensures
        ({
            let (r, st1) = sp_handle_semi(input, st);
            &&& sp_valid(input, st1)
            &&& pmeasure(input, st1) <= pmeasure(input, st)
            &&& st1.errors == st.errors
        }),
{
    if st.peek.kind == Some(TokenKind::Semicolon) {
        lemma_advance(input, st);
    }
}

/// A primary expression: an identifier (with its trailers), an integer
/// literal or a string literal; anything else is rejected without recovery,
/// leaving recovery to the caller.
pub open spec fn sp_parse_expression(input: Seq<char>, st: PState) -> (Result<
    ExpressionView,
    ParserErrorView,
>, PState)
    decreases pmeasure(input, st), 3int,
        when sp_valid(input, st)
        via sp_parse_expression_dec
{
    if st.peek.kind == Some(TokenKind::Identifier) {
        sp_parse_identifier_expression(input, st)
    } else if st.peek.kind == Some(TokenKind::IntegerLiteral) {
        let (r, st1) = sp_expect(input, st, TokenKind::IntegerLiteral);
        match r {
            Ok(t) => (
                Ok(
                    ExpressionView {
                        kind: ExpressionKindView::IntegerLiteral(t.value),
                        position_start: t.position,
                        position_end: t.position,
                    },
                ),
                st1,
            ),
            Err(e) => (Err(e), st1),
        }
    } else if st.peek.kind == Some(TokenKind::StringLiteral) {
        let (r, st1) = sp_expect(input, st, TokenKind::StringLiteral);
        match r {
            Ok(t) => (
                Ok(
                    ExpressionView {
                        kind: ExpressionKindView::StringLiteral(t.value),
                        position_start: t.position,
                        position_end: t.position,
                    },
                ),
                st1,
            ),
            Err(e) => (Err(e), st1),
        }
    } else {
        (
            Err(
                ParserErrorView {
                    kind: ParserErrorKindView::UnexpectedToken(st.peek.value),
                    position: st.peek.position,
                },
            ),
            st,
        )
    }
}

#[via_fn]
proof fn sp_parse_expression_dec(input: Seq<char>, st: PState) {
}

/// An identifier followed by any number of field-access and call trailers,
/// left-associative.
pub open spec fn sp_parse_identifier_expression(input: Seq<char>, st: PState) -> (Result<
    ExpressionView,
    ParserErrorView,
>, PState)
    decreases pmeasure(input, st), 2int,
        when sp_valid(input, st)
        via sp_parse_identifier_expression_dec
{
    let (r, st1) = sp_expect(input, st, TokenKind::Identifier);
    match r {
        Ok(t) => sp_trailers(
            input,
            st1,
            ExpressionView {
                kind: ExpressionKindView::Identifier(t.value),
                position_start: t.position,
                position_end: t.position,
            },
        ),
        Err(e) => (Err(e), st1),
    }
}

#[via_fn]
proof fn sp_parse_identifier_expression_dec(input: Seq<char>, st: PState) {
    lemma_expect(input, st, TokenKind::Identifier);
}

/// Chains `.field` and `(arguments)` trailers onto an expression until the
/// lookahead starts neither.
pub open spec fn sp_trailers(input: Seq<char>, st: PState, e: ExpressionView) -> (Result<
    ExpressionView,
    ParserErrorView,
>, PState)
    decreases pmeasure(input, st), 5int,
        when sp_valid(input, st)
        via sp_trailers_dec
{
    if st.peek.kind == Some(TokenKind::Dot) {
        let st1 = sp_advance(input, st);
        let (r, st2) = sp_expect(input, st1, TokenKind::Identifier);
        match r {
            Ok(f) => sp_trailers(
                input,
                st2,
                ExpressionView {
                    kind: ExpressionKindView::FieldAccess {
                        object: Box::new(e),
                        field: f.value,
                    },
                    position_start: e.position_start,
                    position_end: f.position,
                },
            ),
            Err(err) => (Err(err), st2),
        }
    } else if st.peek.kind == Some(TokenKind::LeftParen) {
        let st1 = sp_advance(input, st);
        let (args, st2) = if st1.peek.kind != Some(TokenKind::RightParen) {
            sp_arguments(input, st1, Seq::empty())
        } else {
            (Ok(Seq::<ExpressionView>::empty()), st1)
        };
        match args {
            Ok(arg_list) => {
                let (r, st3) = sp_expect(input, st2, TokenKind::RightParen);
                match r {
                    Ok(rp) => {
                        let call = ExpressionView {
                            kind: ExpressionKindView::FunctionCall {
                                name: Box::new(e),
                                arguments: arg_list,
                            },
                            position_start: e.position_start,
                            position_end: rp.position,
                        };
                        // the cursor has consumed at least the parenthesis,
                        // so the measure has dropped; the guard is for the
                        // termination checker
                        if sp_valid(input, st3) && pmeasure(input, st3) < pmeasure(input, st) {
                            sp_trailers(input, st3, call)
                        } else {
                            (Ok(call), st3)
                        }
                    },
                    Err(err) => (Err(err), st3),
                }
            },
            Err(err) => (Err(err), st2),
        }
    } else {
        (Ok(e), st)
    }
}

#[via_fn]
proof fn sp_trailers_dec(input: Seq<char>, st: PState, e: ExpressionView) {
    if st.peek.kind == Some(TokenKind::Dot) {
        lemma_advance(input, st);
        lemma_expect(input, sp_advance(input, st), TokenKind::Identifier);
    } else if st.peek.kind == Some(TokenKind::LeftParen) {
        lemma_advance(input, st);
    }
}

/// A comma-separated argument list, at least one argument.
pub open spec fn sp_arguments(input: Seq<char>, st: PState, acc: Seq<ExpressionView>) -> (Result<
    Seq<ExpressionView>,
    ParserErrorView,
>, PState)
    decreases pmeasure(input, st), 4int,
        when sp_valid(input, st)
        via sp_arguments_dec
{
    let (r, st1) = sp_parse_expression(input, st);
    match r {
        Ok(arg) => {
            if st1.peek.kind == Some(TokenKind::Comma) {
                let st2 = sp_advance(input, st1);
                // parsing the argument consumed input, so the measure has
                // dropped; the guard is for the termination checker
                if sp_valid(input, st2) && pmeasure(input, st2) < pmeasure(input, st) {
                    sp_arguments(input, st2, acc.push(arg))
                } else {
                    (Ok(acc.push(arg)), st2)
                }
            } else {
                (Ok(acc.push(arg)), st1)
            }
        },
        Err(e) => (Err(e), st1),
    }
}

#[via_fn]
proof fn sp_arguments_dec(input: Seq<char>, st: PState, acc: Seq<ExpressionView>) {
}

/// In the call-trailer arm with a non-empty argument list, a failed
/// argument parse propagates.
proof fn lemma_trailers_args_err(input: Seq<char>, st: PState, e: ExpressionView)
    requires
        sp_valid(input, st),
        st.peek.kind == Some(TokenKind::LeftParen),
        sp_advance(input, st).peek.kind != Some(TokenKind::RightParen),
        sp_arguments(input, sp_advance(input, st), Seq::empty()).0 is Err,
    ensures
        sp_trailers(input, st, e) == (
            Err::<ExpressionView, ParserErrorView>(
                sp_arguments(input, sp_advance(input, st), Seq::empty()).0->Err_0,
            ),
            sp_arguments(input, sp_advance(input, st), Seq::empty()).1,
        ),
{
    lemma_advance(input, st);
    let st1 = sp_advance(input, st);
    let pair = sp_arguments(input, st1, Seq::<ExpressionView>::empty());
    assert(st.peek.kind != Some(TokenKind::Dot));
    assert(pair.0 is Err);
    match pair.0 {
        Err(err) => {
            assert(sp_trailers(input, st, e) == (
                Err::<ExpressionView, ParserErrorView>(err),
                pair.1,
            ));
        },
        Ok(_) => {
            assert(false);
        },
    }
}

/// A statement, dispatched on the lookahead: `package`, `import` and `func`
/// select the declaration forms; anything else is an expression statement.
pub open spec fn sp_parse_statement(input: Seq<char>, st: PState) -> (Result<
    StatementView,
    ParserErrorView,
>, PState)
    decreases pmeasure(input, st), 8int,
        when sp_valid(input, st)
        via sp_parse_statement_dec
{
    if st.peek.kind == Some(TokenKind::Keyword(Keyword::Package)) {
        sp_parse_package_declaration(input, st)
    } else if st.peek.kind == Some(TokenKind::Keyword(Keyword::Import)) {
        sp_parse_import_declaration(input, st)
    } else if st.peek.kind == Some(TokenKind::Keyword(Keyword::Func)) {
        sp_parse_function_declaration(input, st)
    } else {
        sp_parse_expression_statement(input, st)
    }
}

#[via_fn]
proof fn sp_parse_statement_dec(input: Seq<char>, st: PState) {
}

/// `package <identifier>` followed by a statement terminator.
pub open spec fn sp_parse_package_declaration(input: Seq<char>, st: PState) -> (Result<
    StatementView,
    ParserErrorView,
>, PState)
    decreases pmeasure(input, st), 7int,
        when sp_valid(input, st)
        via sp_parse_package_declaration_dec
{
    let (r, st1) = sp_expect(input, st, TokenKind::Keyword(Keyword::Package));
    match r {
        Ok(package_token) => {
            let (rn, st2) = sp_expect(input, st1, TokenKind::Identifier);
            match rn {
                Ok(name_token) => {
                    let (rs, st3) = sp_handle_semi(input, st2);
                    match rs {
                        Ok(end_position) => (
                            Ok(
                                StatementView {
                                    kind: StatementKindView::PackageDeclaration(name_token.value),
                                    position_start: package_token.position,
                                    position_end: end_position,
                                },
                            ),
                            st3,
                        ),
                        Err(e) => (Err(e), st3),
                    }
                },
                Err(e) => (Err(e), st2),
            }
        },
        Err(e) => (Err(e), st1),
    }
}

#[via_fn]
proof fn sp_parse_package_declaration_dec(input: Seq<char>, st: PState) {
    lemma_expect(input, st, TokenKind::Keyword(Keyword::Package));
    let (r, st1) = sp_expect(input, st, TokenKind::Keyword(Keyword::Package));
    lemma_expect(input, st1, TokenKind::Identifier);
}

/// The body of a string-literal lexeme: its text without the enclosing
/// quotes.
pub open spec fn strip_quotes(s: Seq<char>) -> Seq<char> {
    if s.len() >= 2 {
        s.subrange(1, s.len() - 1)
    } else {
        s
    }
}

/// `import "<path>"` followed by a statement terminator; the stored path is
/// the string literal's text without its enclosing quotes.
pub open spec fn sp_parse_import_declaration(input: Seq<char>, st: PState) -> (Result<
    StatementView,
    ParserErrorView,
>, PState)
    decreases pmeasure(input, st), 7int,
        when sp_valid(input, st)
        via sp_parse_import_declaration_dec
{
    let (r, st1) = sp_expect(input, st, TokenKind::Keyword(Keyword::Import));
    match r {
        Ok(import_token) => {
            let (rp, st2) = sp_expect(input, st1, TokenKind::StringLiteral);
            match rp {
                Ok(path_token) => {
                    let (rs, st3) = sp_handle_semi(input, st2);
                    match rs {
                        Ok(end_position) => (
                            Ok(
                                StatementView {
                                    kind: StatementKindView::ImportDeclaration(
                                        strip_quotes(path_token.value),
                                    ),
                                    position_start: import_token.position,
                                    position_end: end_position,
                                },
                            ),
                            st3,
                        ),
                        Err(e) => (Err(e), st3),
                    }
                },
                Err(e) => (Err(e), st2),
            }
        },
        Err(e) => (Err(e), st1),
    }
}

#[via_fn]
proof fn sp_parse_import_declaration_dec(input: Seq<char>, st: PState) {
    lemma_expect(input, st, TokenKind::Keyword(Keyword::Import));
    let (r, st1) = sp_expect(input, st, TokenKind::Keyword(Keyword::Import));
    lemma_expect(input, st1, TokenKind::StringLiteral);
}

/// An expression used as a statement, ended by a statement terminator.
pub open spec fn sp_parse_expression_statement(input: Seq<char>, st: PState) -> (Result<
    StatementView,
    ParserErrorView,
>, PState)
    decreases pmeasure(input, st), 7int,
        when sp_valid(input, st)
        via sp_parse_expression_statement_dec
{
    let (r, st1) = sp_parse_expression(input, st);
    match r {
        Ok(expression) => {
            let (rs, st2) = sp_handle_semi(input, st1);
            match rs {
                Ok(end_position) => (
                    Ok(
                        StatementView {
                            kind: StatementKindView::Expression(expression),
                            position_start: expression.position_start,
                            position_end: end_position,
                        },
                    ),
                    st2,
                ),
                Err(e) => (Err(e), st2),
            }
        },
        Err(e) => (Err(e), st1),
    }
}

#[via_fn]
proof fn sp_parse_expression_statement_dec(input: Seq<char>, st: PState) {
}

/// `func <name>() { <statements> }`; the parameter list of the modeled
/// subset is always empty.
pub open spec fn sp_parse_function_declaration(input: Seq<char>, st: PState) -> (Result<
    StatementView,
    ParserErrorView,
>, PState)
    decreases pmeasure(input, st), 7int,
        when sp_valid(input, st)
        via sp_parse_function_declaration_dec
{
    let (r, st1) = sp_expect(input, st, TokenKind::Keyword(Keyword::Func));
    match r {
        Ok(func_token) => {
            let (rn, st2) = sp_expect(input, st1, TokenKind::Identifier);
            match rn {
                Ok(name_token) => {
                    let (rl, st3) = sp_expect(input, st2, TokenKind::LeftParen);
                    match rl {
                        Ok(_) => {
                            let (rr, st4) = sp_expect(input, st3, TokenKind::RightParen);
                            match rr {
                                Ok(_) => {
                                    let (rb, st5) = sp_expect(input, st4, TokenKind::LeftBrace);
                                    match rb {
                                        Ok(_) => {
                                            let (body, st6) = sp_function_body(
                                                input,
                                                st5,
                                                Seq::empty(),
                                            );
                                            match body {
                                                Ok(body_statements) => {
                                                    let (re, st7) = sp_expect(
                                                        input,
                                                        st6,
                                                        TokenKind::RightBrace,
                                                    );
                                                    match re {
                                                        Ok(right_brace) => (
                                                            Ok(
                                                                StatementView {
                                                                    kind: StatementKindView::FunctionDeclaration {
                                                                        name: name_token.value,
                                                                        parameters: Seq::empty(),
                                                                        body: body_statements,
                                                                    },
                                                                    position_start: func_token.position,
                                                                    position_end: right_brace.position,
                                                                },
                                                            ),
                                                            st7,
                                                        ),
                                                        Err(e) => (Err(e), st7),
                                                    }
                                                },
                                                Err(e) => (Err(e), st6),
                                            }
                                        },
                                        Err(e) => (Err(e), st5),
                                    }
                                },
                                Err(e) => (Err(e), st4),
                            }
                        },
                        Err(e) => (Err(e), st3),
                    }
                },
                Err(e) => (Err(e), st2),
            }
        },
        Err(e) => (Err(e), st1),
    }
}

#[via_fn]
proof fn sp_parse_function_declaration_dec(input: Seq<char>, st: PState) {
    lemma_expect(input, st, TokenKind::Keyword(Keyword::Func));
    let (r, st1) = sp_expect(input, st, TokenKind::Keyword(Keyword::Func));
    lemma_expect(input, st1, TokenKind::Identifier);
    let (rn, st2) = sp_expect(input, st1, TokenKind::Identifier);
    lemma_expect(input, st2, TokenKind::LeftParen);
    let (rl, st3) = sp_expect(input, st2, TokenKind::LeftParen);
    lemma_expect(input, st3, TokenKind::RightParen);
    let (rr, st4) = sp_expect(input, st3, TokenKind::RightParen);
    lemma_expect(input, st4, TokenKind::LeftBrace);
}

/// The statements of a function body, up to the closing brace; reaching the
/// end of input first is an error.
pub open spec fn sp_function_body(input: Seq<char>, st: PState, acc: Seq<StatementView>) -> (Result<
    Seq<StatementView>,
    ParserErrorView,
>, PState)
    decreases pmeasure(input, st), 9int,
        when sp_valid(input, st)
        via sp_function_body_dec
{
    if st.peek.kind == Some(TokenKind::RightBrace) {
        (Ok(acc), st)
    } else if st.peek.kind == Some(TokenKind::EOF) {
        (
            Err(
                ParserErrorView {
                    kind: ParserErrorKindView::UnexpectedToken(
                        "Expected '}' to close function body"@,
                    ),
                    position: st.peek.position,
                },
            ),
            st,
        )
    } else {
        let (r, st1) = sp_parse_statement(input, st);
        match r {
            Ok(statement) => {
                // a parsed statement consumed input, so the measure has
                // dropped; the guard is for the termination checker
                if sp_valid(input, st1) && pmeasure(input, st1) < pmeasure(input, st) {
                    sp_function_body(input, st1, acc.push(statement))
                } else {
                    (Ok(acc.push(statement)), st1)
                }
            },
            Err(e) => (Err(e), st1),
        }
    }
}

#[via_fn]
proof fn sp_function_body_dec(input: Seq<char>, st: PState, acc: Seq<StatementView>) {
}

/// The top-level loop of `parse`: statements until `EOF`. A failed statement
/// records its error, synchronizes, and skips one more token so the scan
/// cannot stall; its statements so far are kept.
pub open spec fn sp_program_loop(input: Seq<char>, st: PState, acc: Seq<StatementView>) -> (Seq<
    StatementView
>, PState)
    decreases pmeasure(input, st), 10int,
        when sp_valid(input, st)
        via sp_program_loop_dec
{
    if st.peek.kind == Some(TokenKind::EOF) {
        (acc, st)
    } else {
        let (r, st1) = sp_parse_statement(input, st);
        match r {
            Ok(statement) => {
                // a parsed statement consumed input, so the measure has
                // dropped; the guard is for the termination checker
                if sp_valid(input, st1) && pmeasure(input, st1) < pmeasure(input, st) {
                    sp_program_loop(input, st1, acc.push(statement))
                } else {
                    (acc.push(statement), st1)
                }
            },
            Err(e) => {
                let st2 = sp_sync(input, PState { errors: st1.errors.push(e), ..st1 });
                if st2.peek.kind != Some(TokenKind::EOF) {
                    let st3 = sp_advance(input, st2);
                    // recovery consumed at least one token, so the measure
                    // has dropped; the guard is for the termination checker
                    if sp_valid(input, st3) && pmeasure(input, st3) < pmeasure(input, st) {
                        sp_program_loop(input, st3, acc)
                    } else {
                        (acc, st3)
                    }
                } else {
                    (acc, st2)
                }
            },
        }
    }
}

#[via_fn]
proof fn sp_program_loop_dec(input: Seq<char>, st: PState, acc: Seq<StatementView>) {
}

/// The whole parse: with errors already recorded the parse refuses and
/// returns them; otherwise it returns the program built by the top-level
/// loop, with all diagnostics left in the parser's error list.
pub open spec fn sp_parse(input: Seq<char>, st: PState) -> (Result<
    ProgramView,
    Seq<ParserErrorView>,
>, PState) {
    if st.errors.len() > 0 {
        (Err(st.errors), st)
    } else {
        let (statements, st1) = sp_program_loop(input, st, Seq::empty());
        (Ok(ProgramView { statements }), st1)
    }
}

/// The parser state after construction: the cursor sits before the first
/// token, and one token of lookahead has been pulled.
pub open spec fn sp_initial(input: Seq<char>) -> PState {
    let step = lex_next(input, 0, false, false);
    PState {
        pos: step.new_pos,
        in_string: step.in_string,
        in_rune: step.in_rune,
        lex_newline: step.newline,
        lex_errors: crate::lexer::error_seq(step.error),
        current: TokenView {
            kind: Some(TokenKind::BeforeStart),
            value: Seq::empty(),
            position: Position { line: 0, column_start: 0, column_end: 0 },
        },
        peek: step.token,
        errors: Seq::empty(),
    }
}

/// The views of the recorded parser errors.
pub open spec fn perrors_view(es: Seq<ParserError>) -> Seq<ParserErrorView> {
    Seq::new(es.len(), |i: int| es[i]@)
}

proof fn lemma_perrors_view_push(es: Seq<ParserError>, e: ParserError)
    ensures
        perrors_view(es.push(e)) == perrors_view(es).push(e@),
{
    assert(perrors_view(es.push(e)) =~= perrors_view(es).push(e@));
}

/// The parser: an owned tokenizer, the last consumed token, one token of
/// lookahead, and the recorded errors.
pub struct Parser {
    lexer: Lexer,
    pub current_token: Token,
    pub peek_token: Token,
    pub errors: Vec<ParserError>,
}

impl View for Parser {
    type V = ParserView;

    closed spec fn view(&self) -> ParserView {
        ParserView {
            input: self.lexer@.input,
            st: PState {
                pos: self.lexer@.pos,
                in_string: self.lexer@.in_string,
                in_rune: self.lexer@.in_rune,
                lex_newline: self.lexer@.newline,
                lex_errors: self.lexer@.errors,
                current: self.current_token@,
                peek: self.peek_token@,
                errors: perrors_view(self.errors@),
            },
        }
    }
}

impl Parser {
    pub closed spec fn wf(&self) -> bool {
        self.lexer.wf()
    }

    /// A parser over the given input, with one token of lookahead pulled.
    pub fn new(input: &str) -> (p: Parser)
        requires
            input@.len() < usize::MAX,
        ensures
            p.wf(),
            p@ == (ParserView { input: input@, st: sp_initial(input@) }),
    {
        let mut lexer = Lexer::new(input);
        let current_token = Token::new_before_start();
        let peek_token = lexer.next_token();
        let p = Parser { lexer, current_token, peek_token, errors: Vec::new() };
        proof {
            assert(perrors_view(p.errors@) =~= Seq::<ParserErrorView>::empty());
            assert(p@ =~~= (ParserView { input: input@, st: sp_initial(input@) }));
        }
        p
    }

    /// The lookahead token, unconsumed.
    fn peek(&self) -> (t: &Token)
        ensures
            t@ == self@.st.peek,
    {
        &self.peek_token
    }

    /// Shifts the lookahead into the current slot and pulls a new lookahead,
    /// unless the stream already ended.
    pub fn advance(&mut self)
        requires
            old(self).wf(),
        ensures
            final(self).wf(),
            final(self)@.input == old(self)@.input,
            final(self)@.st == sp_advance(old(self)@.input, old(self)@.st),
    {
        self.current_token = self.peek_token.clone();
        if !matches!(self.current_token.kind, Some(TokenKind::EOF)) {
            self.peek_token = self.lexer.next_token();
        } else {
            self.peek_token = Token::new_with_kind(
                TokenKind::EOF,
                "",
                self.current_token.position,
            );
        }
        proof {
            reveal_strlit("");
            assert(""@ =~= Seq::<char>::empty());
            assert(self@.st =~~= sp_advance(old(self)@.input, old(self)@.st));
        }
    }

    /// Discards tokens until the lookahead is a semicolon or the end of
    /// input.
    fn synchronize(&mut self)
        requires
            old(self).wf(),
        ensures
            final(self).wf(),
            final(self)@.input == old(self)@.input,
            final(self)@.st == sp_sync(old(self)@.input, old(self)@.st),
    {
        let ghost input0 = old(self)@.input;
        proof {
            crate::lexer::lemma_lexer_wf(&self.lexer);
        }
        let ghost target = sp_sync(old(self)@.input, old(self)@.st);
        while !(matches!(self.peek_token.kind, Some(TokenKind::EOF)) || matches!(
            self.peek_token.kind,
            Some(TokenKind::Semicolon),
        ))
            invariant
                self.wf(),
                self@.input == input0,
                sp_valid(input0, self@.st),
                target == sp_sync(input0, self@.st),
            decreases pmeasure(input0, self@.st),
        {
            proof {
                lemma_advance(input0, self@.st);
            }
            self.advance();
            proof {
                crate::lexer::lemma_lexer_wf(&self.lexer);
            }
        }
    }

    /// Consumes and returns the lookahead if it has the expected kind;
    /// otherwise records an `UnexpectedToken` error, synchronizes, and
    /// returns the error.
    pub fn expect_token(&mut self, kind: TokenKind) -> (r: Result<Token, ParserError>)
        requires
            old(self).wf(),
        ensures
            final(self).wf(),
            final(self)@.input == old(self)@.input,
            ({
                let (sr, st1) = sp_expect(old(self)@.input, old(self)@.st, kind);
                &&& final(self)@.st == st1
                &&& match sr {
                    Ok(tv) => r matches Ok(t) && t@ == tv,
                    Err(ev) => r matches Err(e) && e@ == ev,
                }
            }),
    {
        let matches_kind = match self.peek().kind {
            Some(k) => k == kind,
            None => false,
        };
        if matches_kind {
            self.advance();
            Ok(self.current_token.clone())
        } else {
            let value_for_list = self.peek_token.value.clone();
            let value_for_caller = self.peek_token.value.clone();
            let position = self.peek_token.position;
            let error = ParserError::new(
                ParserErrorKind::UnexpectedToken(value_for_list),
                position,
            );
            proof {
                lemma_perrors_view_push(self.errors@, error);
            }
            self.errors.push(error);
            self.synchronize();
            Err(ParserError::new(ParserErrorKind::UnexpectedToken(value_for_caller), position))
        }
    }

    /// Whether the statement may end here without an explicit semicolon:
    /// at the end of input, or after a crossed newline, which this query
    /// consumes.
    fn is_end_of_line(&mut self) -> (r: bool)
        requires
            old(self).wf(),
        ensures
            final(self).wf(),
            final(self)@.input == old(self)@.input,
            old(self)@.st.peek.kind == Some(TokenKind::EOF) ==> r && final(self)@.st == old(
                self,
            )@.st,
            old(self)@.st.peek.kind != Some(TokenKind::EOF) ==> r == old(self)@.st.lex_newline
                && final(self)@.st == (PState { lex_newline: false, ..old(self)@.st }),
    {
        if matches!(self.peek_token.kind, Some(TokenKind::EOF)) {
            return true;
        }
        let r = self.lexer.had_newline_before_current_token();
        proof {
            assert(final(self)@.st =~~= (PState { lex_newline: false, ..old(self)@.st }));
        }
        r
    }

    /// A primary expression: an identifier with its trailers, an integer
    /// literal or a string literal.
    fn parse_expression(&mut self) -> (r: Result<Expression, ParserError>)
        requires
            old(self).wf(),
        ensures
            final(self).wf(),
            final(self)@.input == old(self)@.input,
            ({
                let (sr, st1) = sp_parse_expression(old(self)@.input, old(self)@.st);
                &&& final(self)@.st == st1
                &&& match sr {
                    Ok(ev) => r matches Ok(e) && e@ == ev,
                    Err(ev) => r matches Err(pe) && pe@ == ev,
                }
                &&& pmeasure(old(self)@.input, st1) <= pmeasure(old(self)@.input, old(self)@.st)
                &&& (sr is Ok ==> pmeasure(old(self)@.input, st1) < pmeasure(
                    old(self)@.input,
                    old(self)@.st,
                ))
            }),
        decreases pmeasure(self@.input, self@.st), 3int,
    {
        proof {
            crate::lexer::lemma_lexer_wf(&self.lexer);
        }
        let ghost input0 = old(self)@.input;
        let ghost st0 = old(self)@.st;
        if matches!(self.peek_token.kind, Some(TokenKind::Identifier)) {
            self.parse_identifier_expression()
        } else if matches!(self.peek_token.kind, Some(TokenKind::IntegerLiteral)) {
            proof {
                lemma_expect(input0, st0, TokenKind::IntegerLiteral);
            }
            match self.expect_token(TokenKind::IntegerLiteral) {
                Ok(integer) => Ok(Expression::new_integer_literal(integer.value, integer.position)),
                Err(e) => Err(e),
            }
        } else if matches!(self.peek_token.kind, Some(TokenKind::StringLiteral)) {
            proof {
                lemma_expect(input0, st0, TokenKind::StringLiteral);
            }
            match self.expect_token(TokenKind::StringLiteral) {
                Ok(string) => Ok(Expression::new_string_literal(string.value, string.position)),
                Err(e) => Err(e),
            }
        } else {
            Err(
                ParserError::new(
                    ParserErrorKind::UnexpectedToken(self.peek_token.value.clone()),
                    self.peek_token.position,
                ),
            )
        }
    }

    /// An identifier followed by any number of `.field` and `(arguments)`
    /// trailers, chained left-associatively.
    #[verifier::rlimit(100)]
    fn parse_identifier_expression(&mut self) -> (r: Result<Expression, ParserError>)
        requires
            old(self).wf(),
        ensures
            final(self).wf(),
            final(self)@.input == old(self)@.input,
            ({
                let (sr, st1) = sp_parse_identifier_expression(old(self)@.input, old(self)@.st);
                &&& final(self)@.st == st1
                &&& match sr {
                    Ok(ev) => r matches Ok(e) && e@ == ev,
                    Err(ev) => r matches Err(pe) && pe@ == ev,
                }
                &&& pmeasure(old(self)@.input, st1) <= pmeasure(old(self)@.input, old(self)@.st)
                &&& (sr is Ok ==> pmeasure(old(self)@.input, st1) < pmeasure(
                    old(self)@.input,
                    old(self)@.st,
                ))
            }),
        decreases pmeasure(self@.input, self@.st), 2int,
    {
        proof {
            crate::lexer::lemma_lexer_wf(&self.lexer);
        }
        let ghost input0 = old(self)@.input;
        let ghost st0 = old(self)@.st;
        proof {
            lemma_expect(input0, st0, TokenKind::Identifier);
        }
        let identifier_token = match self.expect_token(TokenKind::Identifier) {
            Ok(t) => t,
            Err(e) => {
                return Err(e);
            },
        };
        let mut expression = Expression::new_identifier(
            identifier_token.value,
            identifier_token.position,
        );
        let ghost st1 = self@.st;
        let ghost e0 = expression@;
        let ghost target = sp_trailers(input0, st1, e0);
        loop
            invariant
                self.wf(),
                input0 == old(self)@.input,
                st0 == old(self)@.st,
                self@.input == input0,
                sp_valid(input0, self@.st),
                sp_valid(input0, st0),
                pmeasure(input0, self@.st) < pmeasure(input0, st0),
                sp_parse_identifier_expression(input0, st0) == target,
                target == sp_trailers(input0, self@.st, expression@),
            decreases pmeasure(input0, self@.st),
        {
            if matches!(self.peek_token.kind, Some(TokenKind::Dot)) {
                proof {
                    lemma_advance(input0, self@.st);
                }
                self.advance();
                let ghost st_a = self@.st;
                proof {
                    lemma_expect(input0, st_a, TokenKind::Identifier);
                }
                let field_token = match self.expect_token(TokenKind::Identifier) {
                    Ok(t) => t,
                    Err(e) => {
                        return Err(e);
                    },
                };
                let start_pos = expression.position_start;
                let end_pos = field_token.position;
                expression = Expression::new_field_access(
                    expression,
                    field_token.value,
                    start_pos,
                    end_pos,
                );
            } else if matches!(self.peek_token.kind, Some(TokenKind::LeftParen)) {
                let ghost st_call = self@.st;
                let ghost e_call = expression@;
                let start_pos = expression.position_start;
                proof {
                    lemma_advance(input0, self@.st);
                }
                self.advance();
                let ghost st_in = self@.st;
                let mut arguments: Vec<Expression> = Vec::new();
                proof {
                    crate::ast::lemma_exprs_view_index(Seq::<Expression>::empty());
                    assert(crate::ast::exprs_view(arguments@) =~= Seq::<ExpressionView>::empty());
                }
                let ghost spec_args = if st_in.peek.kind != Some(TokenKind::RightParen) {
                    sp_arguments(input0, st_in, Seq::<ExpressionView>::empty())
                } else {
                    (Ok::<_, ParserErrorView>(Seq::<ExpressionView>::empty()), st_in)
                };
                if !matches!(self.peek_token.kind, Some(TokenKind::RightParen)) {
                    loop
                        invariant_except_break
                            self.wf(),
                            input0 == old(self)@.input,
                            st0 == old(self)@.st,
                            self@.input == input0,
                            sp_valid(input0, self@.st),
                            sp_valid(input0, st0),
                            sp_valid(input0, st_call),
                            st_call.peek.kind == Some(TokenKind::LeftParen),
                            st_in == sp_advance(input0, st_call),
                            st_in.peek.kind != Some(TokenKind::RightParen),
                            e_call == expression@,
                            sp_parse_identifier_expression(input0, st0) == sp_trailers(
                                input0,
                                st_call,
                                e_call,
                            ),
                            spec_args == sp_arguments(input0, st_in, Seq::<
                                ExpressionView,
                            >::empty()),
                            spec_args == sp_arguments(
                                input0,
                                self@.st,
                                crate::ast::exprs_view(arguments@),
                            ),
                            pmeasure(input0, self@.st) <= pmeasure(input0, st_in),
                            pmeasure(input0, st_in) < pmeasure(input0, st_call),
                            pmeasure(input0, st_call) < pmeasure(input0, st0),
                        ensures
                            self.wf(),
                            self@.input == input0,
                            sp_valid(input0, self@.st),
                            spec_args == (
                                Ok::<_, ParserErrorView>(crate::ast::exprs_view(arguments@)),
                                self@.st,
                            ),
                            pmeasure(input0, self@.st) <= pmeasure(input0, st_in),
                        decreases pmeasure(input0, self@.st),
                    {
                        let ghost st_it = self@.st;
                        let ghost acc_it = crate::ast::exprs_view(arguments@);
                        let arg = match self.parse_expression() {
                            Ok(a) => a,
                            Err(e) => {
                                proof {
                                    crate::lexer::lemma_lexer_wf(&self.lexer);
                                    let er = sp_parse_expression(input0, st_it);
                                    assert(spec_args == sp_arguments(input0, st_it, acc_it));
                                    lemma_trailers_args_err(input0, st_call, e_call);
                                }
                                return Err(e);
                            },
                        };
                        proof {
                            crate::ast::lemma_exprs_view_push(arguments@, arg);
                        }
                        arguments.push(arg);
                        if matches!(self.peek_token.kind, Some(TokenKind::Comma)) {
                            proof {
                                crate::lexer::lemma_lexer_wf(&self.lexer);
                                lemma_advance(input0, self@.st);
                            }
                            self.advance();
                        } else {
                            proof {
                                crate::lexer::lemma_lexer_wf(&self.lexer);
                            }
                            break;
                        }
                    }
                }
                proof {
                    assert(spec_args == (
                        Ok::<_, ParserErrorView>(crate::ast::exprs_view(arguments@)),
                        self@.st,
                    ));
                }
                let ghost st_args_end = self@.st;
                proof {
                    lemma_expect(input0, st_args_end, TokenKind::RightParen);
                }
                let right_paren = match self.expect_token(TokenKind::RightParen) {
                    Ok(t) => t,
                    Err(e) => {
                        return Err(e);
                    },
                };
                let end_pos = right_paren.position;
                expression = Expression::new_function_call(
                    expression,
                    arguments,
                    start_pos,
                    end_pos,
                );
            } else {
                return Ok(expression);
            }
        }
    }

    /// A statement, dispatched on the lookahead: the keywords `package`,
    /// `import` and `func` select the declaration forms; anything else is
    /// parsed as an expression statement.
    fn parse_statement(&mut self) -> (r: Result<Statement, ParserError>)
        requires
            old(self).wf(),
        ensures
            final(self).wf(),
            final(self)@.input == old(self)@.input,
            ({
                let (sr, st1) = sp_parse_statement(old(self)@.input, old(self)@.st);
                &&& final(self)@.st == st1
                &&& match sr {
                    Ok(sv) => r matches Ok(s) && s@ == sv,
                    Err(ev) => r matches Err(pe) && pe@ == ev,
                }
                &&& pmeasure(old(self)@.input, st1) <= pmeasure(old(self)@.input, old(self)@.st)
                &&& (sr is Ok ==> pmeasure(old(self)@.input, st1) < pmeasure(
                    old(self)@.input,
                    old(self)@.st,
                ))
            }),
        decreases pmeasure(self@.input, self@.st), 8int,
    {
        proof {
            crate::lexer::lemma_lexer_wf(&self.lexer);
        }
        if matches!(self.peek_token.kind, Some(TokenKind::Keyword(Keyword::Package))) {
            self.parse_package_declaration()
        } else if matches!(self.peek_token.kind, Some(TokenKind::Keyword(Keyword::Import))) {
            self.parse_import_declaration()
        } else if matches!(self.peek_token.kind, Some(TokenKind::Keyword(Keyword::Func))) {
            self.parse_function_declaration()
        } else {
            self.parse_expression_statement()
        }
    }

    /// An expression used as a statement, ended by a statement terminator.
    fn parse_expression_statement(&mut self) -> (r: Result<Statement, ParserError>)
        requires
            old(self).wf(),
        ensures
            final(self).wf(),
            final(self)@.input == old(self)@.input,
            ({
                let (sr, st1) = sp_parse_expression_statement(old(self)@.input, old(self)@.st);
                &&& final(self)@.st == st1
                &&& match sr {
                    Ok(sv) => r matches Ok(s) && s@ == sv,
                    Err(ev) => r matches Err(pe) && pe@ == ev,
                }
                &&& pmeasure(old(self)@.input, st1) <= pmeasure(old(self)@.input, old(self)@.st)
                &&& (sr is Ok ==> pmeasure(old(self)@.input, st1) < pmeasure(
                    old(self)@.input,
                    old(self)@.st,
                ))
            }),
        decreases pmeasure(self@.input, self@.st), 7int,
    {
        proof {
            crate::lexer::lemma_lexer_wf(&self.lexer);
        }
        let ghost input0 = old(self)@.input;
        let ghost st0 = old(self)@.st;
        let expression = match self.parse_expression() {
            Ok(e) => e,
            Err(err) => {
                return Err(err);
            },
        };
        let start_position = expression.position_start;
        let ghost st1 = self@.st;
        proof {
            crate::lexer::lemma_lexer_wf(&self.lexer);
            lemma_handle_semi(input0, st1);
        }
        let end_position = match self.handle_semicolon_insertion() {
            Ok(p) => p,
            Err(e) => {
                return Err(e);
            },
        };
        Ok(Statement::new_expression_statement(expression, start_position, end_position))
    }

    /// `package <identifier>` followed by a statement terminator.
    fn parse_package_declaration(&mut self) -> (r: Result<Statement, ParserError>)
        requires
            old(self).wf(),
        ensures
            final(self).wf(),
            final(self)@.input == old(self)@.input,
            ({
                let (sr, st1) = sp_parse_package_declaration(old(self)@.input, old(self)@.st);
                &&& final(self)@.st == st1
                &&& match sr {
                    Ok(sv) => r matches Ok(s) && s@ == sv,
                    Err(ev) => r matches Err(pe) && pe@ == ev,
                }
                &&& pmeasure(old(self)@.input, st1) <= pmeasure(old(self)@.input, old(self)@.st)
                &&& (sr is Ok ==> pmeasure(old(self)@.input, st1) < pmeasure(
                    old(self)@.input,
                    old(self)@.st,
                ))
            }),
        decreases pmeasure(self@.input, self@.st), 7int,
    {
        proof {
            crate::lexer::lemma_lexer_wf(&self.lexer);
        }
        let ghost input0 = old(self)@.input;
        let ghost st0 = old(self)@.st;
        proof {
            lemma_expect(input0, st0, TokenKind::Keyword(Keyword::Package));
        }
        let package_token = match self.expect_token(TokenKind::Keyword(Keyword::Package)) {
            Ok(t) => t,
            Err(e) => {
                return Err(e);
            },
        };
        let package_pos = package_token.position;
        let ghost st1 = self@.st;
        proof {
            lemma_expect(input0, st1, TokenKind::Identifier);
        }
        let name_token = match self.expect_token(TokenKind::Identifier) {
            Ok(t) => t,
            Err(e) => {
                return Err(e);
            },
        };
        let name_value = name_token.value;
        let ghost st2 = self@.st;
        proof {
            lemma_handle_semi(input0, st2);
        }
        let end_position = match self.handle_semicolon_insertion() {
            Ok(p) => p,
            Err(e) => {
                return Err(e);
            },
        };
        Ok(Statement::new_package_declaration(name_value, package_pos, end_position))
    }

    /// `import "<path>"` followed by a statement terminator; the stored path
    /// is the string literal's text without its enclosing quotes.
    fn parse_import_declaration(&mut self) -> (r: Result<Statement, ParserError>)
        requires
            old(self).wf(),
        ensures
            final(self).wf(),
            final(self)@.input == old(self)@.input,
            ({
                let (sr, st1) = sp_parse_import_declaration(old(self)@.input, old(self)@.st);
                &&& final(self)@.st == st1
                &&& match sr {
                    Ok(sv) => r matches Ok(s) && s@ == sv,
                    Err(ev) => r matches Err(pe) && pe@ == ev,
                }
                &&& pmeasure(old(self)@.input, st1) <= pmeasure(old(self)@.input, old(self)@.st)
                &&& (sr is Ok ==> pmeasure(old(self)@.input, st1) < pmeasure(
                    old(self)@.input,
                    old(self)@.st,
                ))
            }),
        decreases pmeasure(self@.input, self@.st), 7int,
    {
        proof {
            crate::lexer::lemma_lexer_wf(&self.lexer);
        }
        let ghost input0 = old(self)@.input;
        let ghost st0 = old(self)@.st;
        proof {
            lemma_expect(input0, st0, TokenKind::Keyword(Keyword::Import));
        }
        let import_token = match self.expect_token(TokenKind::Keyword(Keyword::Import)) {
            Ok(t) => t,
            Err(e) => {
                return Err(e);
            },
        };
        let import_pos = import_token.position;
        let ghost st1 = self@.st;
        proof {
            lemma_expect(input0, st1, TokenKind::StringLiteral);
        }
        let path_token = match self.expect_token(TokenKind::StringLiteral) {
            Ok(t) => t,
            Err(e) => {
                return Err(e);
            },
        };
        let path_len = path_token.value.as_str().unicode_len();
        let path_value = if path_len >= 2 {
            path_token.value.as_str().substring_char(1, path_len - 1).to_owned()
        } else {
            path_token.value
        };
        let ghost st2 = self@.st;
        proof {
            lemma_handle_semi(input0, st2);
        }
        let end_position = match self.handle_semicolon_insertion() {
            Ok(p) => p,
            Err(e) => {
                return Err(e);
            },
        };
        Ok(Statement::new_import_declaration(path_value, import_pos, end_position))
    }

    /// `func <name>() { <statements> }`; the parameter list of the modeled
    /// subset is always empty.
    #[verifier::rlimit(100)]
    fn parse_function_declaration(&mut self) -> (r: Result<Statement, ParserError>)
        requires
            old(self).wf(),
        ensures
            final(self).wf(),
            final(self)@.input == old(self)@.input,
            ({
                let (sr, st1) = sp_parse_function_declaration(old(self)@.input, old(self)@.st);
                &&& final(self)@.st == st1
                &&& match sr {
                    Ok(sv) => r matches Ok(s) && s@ == sv,
                    Err(ev) => r matches Err(pe) && pe@ == ev,
                }
                &&& pmeasure(old(self)@.input, st1) <= pmeasure(old(self)@.input, old(self)@.st)
                &&& (sr is Ok ==> pmeasure(old(self)@.input, st1) < pmeasure(
                    old(self)@.input,
                    old(self)@.st,
                ))
            }),
        decreases pmeasure(self@.input, self@.st), 7int,
    {
        proof {
            crate::lexer::lemma_lexer_wf(&self.lexer);
        }
        let ghost input0 = old(self)@.input;
        let ghost st0 = old(self)@.st;
        proof {
            lemma_expect(input0, st0, TokenKind::Keyword(Keyword::Func));
        }
        let func_token = match self.expect_token(TokenKind::Keyword(Keyword::Func)) {
            Ok(t) => t,
            Err(e) => {
                return Err(e);
            },
        };
        let func_pos = func_token.position;
        let ghost st1 = self@.st;
        proof {
            lemma_expect(input0, st1, TokenKind::Identifier);
        }
        let name_token = match self.expect_token(TokenKind::Identifier) {
            Ok(t) => t,
            Err(e) => {
                return Err(e);
            },
        };
        let func_name = name_token.value;
        let ghost st2 = self@.st;
        proof {
            lemma_expect(input0, st2, TokenKind::LeftParen);
        }
        match self.expect_token(TokenKind::LeftParen) {
            Ok(_) => {},
            Err(e) => {
                return Err(e);
            },
        }
        let ghost st3 = self@.st;
        proof {
            lemma_expect(input0, st3, TokenKind::RightParen);
        }
        match self.expect_token(TokenKind::RightParen) {
            Ok(_) => {},
            Err(e) => {
                return Err(e);
            },
        }
        let ghost st4 = self@.st;
        proof {
            lemma_expect(input0, st4, TokenKind::LeftBrace);
        }
        match self.expect_token(TokenKind::LeftBrace) {
            Ok(_) => {},
            Err(e) => {
                return Err(e);
            },
        }
        let ghost st5 = self@.st;
        let ghost name_v = func_name@;
        let mut body_statements: Vec<Statement> = Vec::new();
        proof {
            crate::ast::lemma_stmts_view_index(Seq::<Statement>::empty());
            assert(crate::ast::stmts_view(body_statements@) =~= Seq::<StatementView>::empty());
        }
        let ghost spec_body = sp_function_body(input0, st5, Seq::<StatementView>::empty());
        loop
            invariant_except_break
                self.wf(),
                input0 == old(self)@.input,
                st0 == old(self)@.st,
                self@.input == input0,
                sp_valid(input0, self@.st),
                sp_valid(input0, st0),
                sp_valid(input0, st5),
                pmeasure(input0, self@.st) <= pmeasure(input0, st5),
                pmeasure(input0, st5) < pmeasure(input0, st0),
                name_v == func_name@,
                spec_body == sp_function_body(input0, st5, Seq::<StatementView>::empty()),
                spec_body == sp_function_body(
                    input0,
                    self@.st,
                    crate::ast::stmts_view(body_statements@),
                ),
                ({
                    let (sr, st1r) = sp_parse_function_declaration(input0, st0);
                    match spec_body.0 {
                        Ok(bs) => {
                            let (re, st7) = sp_expect(input0, spec_body.1, TokenKind::RightBrace);
                            match re {
                                Ok(rb) => (sr, st1r) == (
                                    Ok::<StatementView, ParserErrorView>(
                                        StatementView {
                                            kind: StatementKindView::FunctionDeclaration {
                                                name: name_v,
                                                parameters: Seq::empty(),
                                                body: bs,
                                            },
                                            position_start: func_pos,
                                            position_end: rb.position,
                                        },
                                    ),
                                    st7,
                                ),
                                Err(e) => (sr, st1r) == (
                                    Err::<StatementView, ParserErrorView>(e),
                                    st7,
                                ),
                            }
                        },
                        Err(e) => (sr, st1r) == (
                            Err::<StatementView, ParserErrorView>(e),
                            spec_body.1,
                        ),
                    }
                }),
            ensures
                self.wf(),
                self@.input == input0,
                sp_valid(input0, self@.st),
                spec_body == (
                    Ok::<Seq<StatementView>, ParserErrorView>(
                        crate::ast::stmts_view(body_statements@),
                    ),
                    self@.st,
                ),
                pmeasure(input0, self@.st) <= pmeasure(input0, st5),
            decreases pmeasure(input0, self@.st),
        {
            if matches!(self.peek_token.kind, Some(TokenKind::RightBrace)) {
                break;
            }
            if matches!(self.peek_token.kind, Some(TokenKind::EOF)) {
                proof {
                    reveal_strlit("Expected '}' to close function body");
                }
                return Err(
                    ParserError::new(
                        ParserErrorKind::UnexpectedToken(
                            "Expected '}' to close function body".to_owned(),
                        ),
                        self.peek_token.position,
                    ),
                );
            }
            let ghost st_it = self@.st;
            let statement = match self.parse_statement() {
                Ok(s) => s,
                Err(e) => {
                    return Err(e);
                },
            };
            proof {
                crate::lexer::lemma_lexer_wf(&self.lexer);
                crate::ast::lemma_stmts_view_push(body_statements@, statement);
            }
            body_statements.push(statement);
        }
        let ghost st6 = self@.st;
        proof {
            lemma_expect(input0, st6, TokenKind::RightBrace);
        }
        let right_brace = match self.expect_token(TokenKind::RightBrace) {
            Ok(t) => t,
            Err(e) => {
                return Err(e);
            },
        };
        let end_pos = right_brace.position;
        let s = Statement::new_function_declaration(
            func_name,
            Vec::new(),
            body_statements,
            func_pos,
            end_pos,
        );
        proof {
            assert(crate::ast::strings_view(Seq::<String>::empty()) =~= Seq::<Seq<char>>::empty());
        }
        Ok(s)
    }

    /// Parses the whole input into a [`Program`]. If errors were already
    /// recorded before parsing began, they are returned instead; otherwise
    /// the best-effort program is returned and every diagnostic collected on
    /// the way stays in the `errors` field.
    pub fn parse(&mut self) -> (r: Result<Program, Vec<ParserError>>)
        requires
            old(self).wf(),
        ensures
            final(self).wf(),
            final(self)@.input == old(self)@.input,
            ({
                let (sr, st1) = sp_parse(old(self)@.input, old(self)@.st);
                &&& final(self)@.st == st1
                &&& match sr {
                    Ok(pv) => r matches Ok(p) && p@ == pv,
                    Err(evs) => r matches Err(es) && perrors_view(es@) == evs,
                }
            }),
    {
        proof {
            crate::lexer::lemma_lexer_wf(&self.lexer);
        }
        let ghost input0 = old(self)@.input;
        let ghost st0 = old(self)@.st;
        if self.errors.len() > 0 {
            return Err(copy_parser_errors(&self.errors));
        }
        let mut statements: Vec<Statement> = Vec::new();
        proof {
            crate::ast::lemma_stmts_view_index(Seq::<Statement>::empty());
            assert(crate::ast::stmts_view(statements@) =~= Seq::<StatementView>::empty());
        }
        let ghost target = sp_program_loop(input0, st0, Seq::<StatementView>::empty());
        while !matches!(self.peek_token.kind, Some(TokenKind::EOF))
            invariant
                self.wf(),
                input0 == old(self)@.input,
                st0 == old(self)@.st,
                self@.input == input0,
                sp_valid(input0, self@.st),
                st0.errors.len() == 0,
                target == sp_program_loop(input0, st0, Seq::<StatementView>::empty()),
                target == sp_program_loop(
                    input0,
                    self@.st,
                    crate::ast::stmts_view(statements@),
                ),
            decreases pmeasure(input0, self@.st), (if self@.st.peek.kind == Some(
                TokenKind::EOF,
            ) {
                0int
            } else {
                1int
            }),
        {
            let ghost st_it = self@.st;
            match self.parse_statement() {
                Ok(statement) => {
                    proof {
                        crate::lexer::lemma_lexer_wf(&self.lexer);
                        crate::ast::lemma_stmts_view_push(statements@, statement);
                    }
                    statements.push(statement);
                },
                Err(error) => {
                    proof {
                        crate::lexer::lemma_lexer_wf(&self.lexer);
                        lemma_perrors_view_push(self.errors@, error);
                    }
                    self.errors.push(error);
                    proof {
                        crate::lexer::lemma_lexer_wf(&self.lexer);
                        lemma_sync(input0, self@.st);
                    }
                    self.synchronize();
                    if !matches!(self.peek_token.kind, Some(TokenKind::EOF)) {
                        proof {
                            crate::lexer::lemma_lexer_wf(&self.lexer);
                            lemma_advance(input0, self@.st);
                        }
                        self.advance();
                    }
                },
            }
        }
        proof {
            assert(target == (crate::ast::stmts_view(statements@), self@.st));
        }
        Ok(Program { statements })
    }

    /// The statement terminator: an explicit `;` is consumed; otherwise the
    /// boundary is accepted at the end of input or after a newline.
    fn handle_semicolon_insertion(&mut self) -> (r: Result<Position, ParserError>)
        requires
            old(self).wf(),
        ensures
            final(self).wf(),
            final(self)@.input == old(self)@.input,
            ({
                let (sr, st1) = sp_handle_semi(old(self)@.input, old(self)@.st);
                &&& final(self)@.st == st1
                &&& match sr {
                    Ok(p) => r matches Ok(q) && q == p,
                    Err(ev) => r matches Err(e) && e@ == ev,
                }
            }),
    {
        if matches!(self.peek_token.kind, Some(TokenKind::Semicolon)) {
            self.advance();
            Ok(self.current_token.position)
        } else if self.is_end_of_line() {
            Ok(self.current_token.position)
        } else {
            let mut message = "Expected ';' to separate statements on same line, got '".to_owned();
            message.append(self.peek_token.value.as_str());
            message.append("'");
            Err(
                ParserError::new(
                    ParserErrorKind::UnexpectedToken(message),
                    self.peek_token.position,
                ),
            )
        }
    }
}

/// An element-for-element copy of the recorded errors, for returning them
/// while the parser keeps its own list.
fn copy_parser_errors(v: &Vec<ParserError>) -> (r: Vec<ParserError>)
    ensures
        perrors_view(r@) == perrors_view(v@),
{
    let mut out: Vec<ParserError> = Vec::new();
    let mut i: usize = 0;
    while i < v.len()
        invariant
            i <= v@.len(),
            out@.len() == i,
            forall|j: int| 0 <= j < i ==> out@[j]@ == v@[j]@,
        decreases v@.len() - i,
    {
        let e = &v[i];
        let kind = match &e.kind {
            ParserErrorKind::LexerError(le) => ParserErrorKind::LexerError(
                LexerError::new(
                    match &le.kind {
                        LexerErrorKind::IncompleteToken(t) => LexerErrorKind::IncompleteToken(
                            t.clone(),
                        ),
                        LexerErrorKind::UnexpectedToken(t) => LexerErrorKind::UnexpectedToken(
                            t.clone(),
                        ),
                        LexerErrorKind::UnterminatedString(t) => LexerErrorKind::UnterminatedString(
                            t.clone(),
                        ),
                        LexerErrorKind::UnterminatedRune(t) => LexerErrorKind::UnterminatedRune(
                            t.clone(),
                        ),
                    },
                    le.position,
                ),
            ),
            ParserErrorKind::UnexpectedToken(t) => ParserErrorKind::UnexpectedToken(t.clone()),
            ParserErrorKind::NotAPrimaryExpression(t) => ParserErrorKind::NotAPrimaryExpression(
                t.clone(),
            ),
            ParserErrorKind::NotImplemented => ParserErrorKind::NotImplemented,
        };
        out.push(ParserError::new(kind, e.position));
        i = i + 1;
    }
    proof {
        assert(perrors_view(out@) =~= perrors_view(v@));
    }
    out
}

/// Parsing is deterministic: it is a function of the input text alone, so
/// two parsers constructed over equal inputs produce structurally equal
/// programs and identical ordered error lists.
pub proof fn lemma_parse_deterministic(a: ParserView, b: ParserView)
    requires
        a.input == b.input,
        a.st == sp_initial(a.input),
        b.st == sp_initial(b.input),
    ensures
        sp_parse(a.input, a.st) == sp_parse(b.input, b.st),
{
}

} // verus!
