//! The tokenizer: consumes the input left to right exactly once, producing
//! one token per call, recording an error for every malformed lexeme without
//! stopping the scan.
//!
//! The whole scanner is specified by [`lex_scan`], a mathematical model of a
//! single `next_token` call: given the input and the scanner state it returns
//! the token, the new state, the error recorded (if any) and whether a
//! newline was crossed. `next_token` is proved to implement it exactly.

use vstd::prelude::*;
use vstd::string::*;
use crate::errors::{LexerError, LexerErrorKind, LexerErrorKindView, LexerErrorView};
use crate::position::Position;
use crate::token::{Token, TokenView};
use crate::token_type::{
    is_space_char, spec_classify, spec_could_match, TokenKind,
};

verus! {

/// The fixed operator and punctuation characters; a lexeme made of these is
/// grown with maximal munch.
pub open spec fn is_symbol_char(c: char) -> bool {
    ||| c == '+'
    ||| c == '-'
    ||| c == '*'
    ||| c == '/'
    ||| c == '%'
    ||| c == '&'
    ||| c == '|'
    ||| c == '^'
    ||| c == '<'
    ||| c == '>'
    ||| c == '='
    ||| c == '!'
    ||| c == '.'
    ||| c == ':'
    ||| c == ','
    ||| c == ';'
    ||| c == '('
    ||| c == ')'
    ||| c == '['
    ||| c == ']'
    ||| c == '{'
    ||| c == '}'
}

pub open spec fn all_symbol_chars(s: Seq<char>) -> bool {
    forall|i: int| 0 <= i < s.len() ==> is_symbol_char(#[trigger] s[i])
}

/// How many line feeds the sequence holds.
pub open spec fn newline_count(s: Seq<char>) -> nat
    decreases s.len(),
{
    if s.len() == 0 {
        0
    } else {
        newline_count(s.drop_last()) + if s.last() == '\n' { 1nat } else { 0nat }
    }
}

/// The 1-based line number at a scan offset: one more than the number of
/// line feeds before it.
pub open spec fn line_of(input: Seq<char>, pos: int) -> int {
    let end = if pos <= input.len() { pos } else { input.len() as int };
    newline_count(input.subrange(0, end)) as int + 1
}

/// The position value the scanner attaches to a span from `anchor` to `pos`.
pub open spec fn position_at(input: Seq<char>, anchor: int, pos: int) -> Position {
    Position {
        line: line_of(input, pos) as usize,
        column_start: anchor as usize,
        column_end: pos as usize,
    }
}

/// Whether the character after `pos` is a whitespace boundary; the end of
/// input counts as one.
pub open spec fn peek_is_ws(input: Seq<char>, pos: int) -> bool {
    pos >= input.len() || is_space_char(input[pos])
}

/// What the scanner decides about the pending lexeme from `anchor` to `pos`:
/// emit it as a token, keep accumulating because a longer token is still
/// possible, or record an error at this boundary.
pub enum ScanDecision {
    Emit(TokenView),
    Accumulate,
    Fail(LexerErrorView),
}

/// The longest-match rule. If the pending lexeme classifies, it is emitted
/// unless appending the next input character could still form a longer valid
/// token. If it does not classify, scanning continues while an extension is
/// plausible; at a dead boundary the lexeme is an error.
pub open spec fn spec_tokenize(input: Seq<char>, anchor: int, pos: int) -> ScanDecision {
    let value = input.subrange(anchor, pos);
    if spec_classify(value) is Some {
        if !peek_is_ws(input, pos) && spec_could_match(value.push(input[pos])) {
            ScanDecision::Accumulate
        } else {
            ScanDecision::Emit(
                TokenView {
                    kind: spec_classify(value),
                    value,
                    position: position_at(input, anchor, pos),
                },
            )
        }
    } else {
        if !peek_is_ws(input, pos) && spec_could_match(value) {
            ScanDecision::Accumulate
        } else {
            ScanDecision::Fail(
                LexerErrorView {
                    kind: LexerErrorKindView::UnexpectedToken(value),
                    position: position_at(input, anchor, pos),
                },
            )
        }
    }
}

/// The outcome of one `next_token` call: the token returned, the scanner
/// state after the call, the error recorded if any, and whether a newline
/// was crossed while skipping whitespace.
#[verifier::ext_equal]
pub struct LexStep {
    pub token: TokenView,
    pub new_pos: int,
    pub in_string: bool,
    pub in_rune: bool,
    pub error: Option<LexerErrorView>,
    pub newline: bool,
}

/// The scanner state machine, one `next_token` call from an arbitrary
/// internal state: `pos` is the scan offset, `anchor` marks the start of the
/// pending lexeme, and the two flags say whether a string or rune literal is
/// open.
pub open spec fn lex_scan(input: Seq<char>, pos: int, anchor: int, in_s: bool, in_r: bool)
    -> LexStep
    decreases input.len() - pos,
{
    if pos >= input.len() {
        if in_s {
            LexStep {
                token: TokenView {
                    kind: None,
                    value: Seq::empty(),
                    position: position_at(input, pos, pos),
                },
                new_pos: pos,
                in_string: false,
                in_rune: in_r,
                error: Some(
                    LexerErrorView {
                        kind: LexerErrorKindView::UnterminatedString(input.subrange(anchor, pos)),
                        position: position_at(input, anchor, pos),
                    },
                ),
                newline: false,
            }
        } else if in_r {
            LexStep {
                token: TokenView {
                    kind: None,
                    value: Seq::empty(),
                    position: position_at(input, pos, pos),
                },
                new_pos: pos,
                in_string: in_s,
                in_rune: false,
                error: Some(
                    LexerErrorView {
                        kind: LexerErrorKindView::UnterminatedRune(input.subrange(anchor, pos)),
                        position: position_at(input, anchor, pos),
                    },
                ),
                newline: false,
            }
        } else {
            LexStep {
                token: TokenView {
                    kind: Some(TokenKind::EOF),
                    value: Seq::empty(),
                    position: position_at(input, anchor, pos),
                },
                new_pos: pos,
                in_string: false,
                in_rune: false,
                error: None,
                newline: false,
            }
        }
    } else {
        let c = input[pos];
        let p1 = pos + 1;
        if is_space_char(c) && !in_s && !in_r {
            let rest = lex_scan(input, p1, p1, false, false);
            LexStep { newline: c == '\n' || rest.newline, ..rest }
        } else if in_s {
            if c == '"' {
                LexStep {
                    token: TokenView {
                        kind: Some(TokenKind::StringLiteral),
                        value: input.subrange(anchor, p1),
                        position: position_at(input, anchor, p1),
                    },
                    new_pos: p1,
                    in_string: false,
                    in_rune: in_r,
                    error: None,
                    newline: false,
                }
            } else if c == '\n' {
                LexStep {
                    token: TokenView {
                        kind: None,
                        value: Seq::empty(),
                        position: position_at(input, p1, p1),
                    },
                    new_pos: p1,
                    in_string: false,
                    in_rune: in_r,
                    error: Some(
                        LexerErrorView {
                            kind: LexerErrorKindView::UnterminatedString(
                                input.subrange(anchor, p1),
                            ),
                            position: position_at(input, anchor, p1),
                        },
                    ),
                    newline: false,
                }
            } else if c == '\\' {
                lex_scan(input, if p1 < input.len() { p1 + 1 } else { p1 }, anchor, in_s, in_r)
            } else {
                lex_scan(input, p1, anchor, in_s, in_r)
            }
        } else if in_r {
            if c == '\'' {
                LexStep {
                    token: TokenView {
                        kind: Some(TokenKind::RuneLiteral),
                        value: input.subrange(anchor, p1),
                        position: position_at(input, anchor, p1),
                    },
                    new_pos: p1,
                    in_string: in_s,
                    in_rune: false,
                    error: None,
                    newline: false,
                }
            } else if is_space_char(c) {
                LexStep {
                    token: TokenView {
                        kind: None,
                        value: Seq::empty(),
                        position: position_at(input, p1, p1),
                    },
                    new_pos: p1,
                    in_string: in_s,
                    in_rune: false,
                    error: Some(
                        LexerErrorView {
                            kind: LexerErrorKindView::UnterminatedRune(input.subrange(anchor, p1)),
                            position: position_at(input, anchor, p1),
                        },
                    ),
                    newline: false,
                }
            } else if c == '\\' {
                lex_scan(input, if p1 < input.len() { p1 + 1 } else { p1 }, anchor, in_s, in_r)
            } else {
                lex_scan(input, p1, anchor, in_s, in_r)
            }
        } else if c == '"' {
            lex_scan(input, p1, pos, true, in_r)
        } else if c == '\'' {
            lex_scan(input, p1, pos, in_s, true)
        } else if is_symbol_char(c) {
            let symbol_pos = pos;
            if anchor < symbol_pos && !all_symbol_chars(input.subrange(anchor, symbol_pos)) {
                let pending = input.subrange(anchor, symbol_pos);
                if spec_classify(pending) is Some {
                    LexStep {
                        token: TokenView {
                            kind: spec_classify(pending),
                            value: pending,
                            position: position_at(input, anchor, symbol_pos),
                        },
                        new_pos: symbol_pos,
                        in_string: in_s,
                        in_rune: in_r,
                        error: None,
                        newline: false,
                    }
                } else {
                    LexStep {
                        token: TokenView {
                            kind: None,
                            value: Seq::empty(),
                            position: position_at(input, anchor, symbol_pos),
                        },
                        new_pos: symbol_pos,
                        in_string: in_s,
                        in_rune: in_r,
                        error: Some(
                            LexerErrorView {
                                kind: LexerErrorKindView::UnexpectedToken(pending),
                                position: position_at(input, anchor, symbol_pos),
                            },
                        ),
                        newline: false,
                    }
                }
            } else {
                match spec_tokenize(input, anchor, p1) {
                    ScanDecision::Emit(t) => LexStep {
                        token: t,
                        new_pos: p1,
                        in_string: in_s,
                        in_rune: in_r,
                        error: None,
                        newline: false,
                    },
                    ScanDecision::Accumulate => lex_scan(input, p1, anchor, in_s, in_r),
                    ScanDecision::Fail(e) => LexStep {
                        token: TokenView {
                            kind: None,
                            value: Seq::empty(),
                            position: position_at(input, p1, p1),
                        },
                        new_pos: p1,
                        in_string: in_s,
                        in_rune: in_r,
                        error: Some(e),
                        newline: false,
                    },
                }
            }
        } else {
            match spec_tokenize(input, anchor, p1) {
                ScanDecision::Emit(t) => LexStep {
                    token: t,
                    new_pos: p1,
                    in_string: in_s,
                    in_rune: in_r,
                    error: None,
                    newline: false,
                },
                ScanDecision::Accumulate => lex_scan(input, p1, anchor, in_s, in_r),
                ScanDecision::Fail(e) => LexStep {
                    token: TokenView {
                        kind: None,
                        value: Seq::empty(),
                        position: position_at(input, p1, p1),
                    },
                    new_pos: p1,
                    in_string: in_s,
                    in_rune: in_r,
                    error: Some(e),
                    newline: false,
                },
            }
        }
    }
}

/// One `next_token` call from a state between calls, where the pending
/// lexeme is empty.
pub open spec fn lex_next(input: Seq<char>, pos: int, in_s: bool, in_r: bool) -> LexStep {
    lex_scan(input, pos, pos, in_s, in_r)
}

/// The tokens and errors of `n` consecutive `next_token` calls.
#[verifier::ext_equal]
pub struct LexRun {
    pub tokens: Seq<TokenView>,
    pub errors: Seq<LexerErrorView>,
    pub newline: bool,
}

pub open spec fn error_seq(e: Option<LexerErrorView>) -> Seq<LexerErrorView> {
    match e {
        Some(err) => seq![err],
        None => Seq::empty(),
    }
}

pub open spec fn lex_run(input: Seq<char>, pos: int, in_s: bool, in_r: bool, n: nat) -> LexRun
    decreases n,
{
    if n == 0 {
        LexRun { tokens: Seq::empty(), errors: Seq::empty(), newline: false }
    } else {
        let step = lex_next(input, pos, in_s, in_r);
        let rest = lex_run(input, step.new_pos, step.in_string, step.in_rune, (n - 1) as nat);
        LexRun {
            tokens: seq![step.token] + rest.tokens,
            errors: error_seq(step.error) + rest.errors,
            newline: step.newline || rest.newline,
        }
    }
}

/// The views of a vector of recorded errors.
pub open spec fn errors_view(es: Seq<LexerError>) -> Seq<LexerErrorView> {
    Seq::new(es.len(), |i: int| es[i]@)
}

/// The views of a vector of tokens.
pub open spec fn tokens_view(ts: Seq<Token>) -> Seq<TokenView> {
    Seq::new(ts.len(), |i: int| ts[i]@)
}

/// The scanner. It owns the input, a scan offset, an anchor marking the
/// start of the pending lexeme, the accumulated errors, the string and rune
/// literal flags, and the newline flag the parser consumes for semicolon
/// insertion.
#[derive(Debug)]
pub struct Lexer {
    input: String,
    current_position: usize,
    anchor: usize,
    errors: Vec<LexerError>,
    is_parsing_string: bool,
    is_parsing_rune: bool,
    newline_before_current_token: bool,
}

/// The state of a [`Lexer`] between `next_token` calls.
#[verifier::ext_equal]
pub struct LexerView {
    pub input: Seq<char>,
    pub pos: int,
    pub in_string: bool,
    pub in_rune: bool,
    pub newline: bool,
    pub errors: Seq<LexerErrorView>,
}

impl View for Lexer {
    type V = LexerView;

    closed spec fn view(&self) -> LexerView {
        LexerView {
            input: self.input@,
            pos: self.current_position as int,
            in_string: self.is_parsing_string,
            in_rune: self.is_parsing_rune,
            newline: self.newline_before_current_token,
            errors: errors_view(self.errors@),
        }
    }
}

impl Lexer {
    /// Between calls the pending lexeme is empty: the anchor sits at the
    /// scan offset, which is within the input.
    pub closed spec fn wf(&self) -> bool {
        &&& self.anchor == self.current_position
        &&& self.current_position <= self.input@.len()
        &&& self.input@.len() < usize::MAX
    }

    /// A scanner at the start of the given input, with no errors recorded.
    pub fn new(input: &str) -> (l: Lexer)
        requires
            input@.len() < usize::MAX,
        ensures
            l.wf(),
            l@ == (LexerView {
                input: input@,
                pos: 0,
                in_string: false,
                in_rune: false,
                newline: false,
                errors: Seq::<LexerErrorView>::empty(),
            }),
    {
        let l = Lexer {
            input: input.to_owned(),
            current_position: 0,
            anchor: 0,
            errors: Vec::new(),
            is_parsing_string: false,
            is_parsing_rune: false,
            newline_before_current_token: false,
        };
        proof {
            assert(errors_view(l.errors@) =~= Seq::<LexerErrorView>::empty());
        }
        l
    }

    /// Scans and returns the next token. Malformed lexemes produce a token
    /// without a kind plus a recorded error, and the scan continues; at the
    /// end of input the token has kind `EOF`. The call behaves exactly as
    /// [`lex_next`] describes.
    #[verifier::rlimit(100)]
    pub fn next_token(&mut self) -> (t: Token)
        requires
            old(self).wf(),
        ensures
            final(self).wf(),
            ({
                let step = lex_next(
                    old(self)@.input,
                    old(self)@.pos,
                    old(self)@.in_string,
                    old(self)@.in_rune,
                );
                &&& t@ == step.token
                &&& final(self)@.input == old(self)@.input
                &&& final(self)@.pos == step.new_pos
                &&& final(self)@.in_string == step.in_string
                &&& final(self)@.in_rune == step.in_rune
                &&& final(self)@.newline == (old(self)@.newline || step.newline)
                &&& final(self)@.errors == old(self)@.errors + error_seq(step.error)
            }),
    {
        proof {
            reveal_strlit("");
            assert(""@ =~= Seq::<char>::empty());
        }
        let ghost input0 = self.input@;
        let ghost errs0 = self.errors@;
        let ghost nl0 = self.newline_before_current_token;
        let ghost step0 = lex_scan(
            input0,
            self.current_position as int,
            self.anchor as int,
            self.is_parsing_string,
            self.is_parsing_rune,
        );
        let ghost mut nl_acc = false;
        loop
            invariant
                input0 == old(self)@.input,
                errors_view(errs0) == old(self)@.errors,
                nl0 == old(self)@.newline,
                step0 == lex_next(
                    old(self)@.input,
                    old(self)@.pos,
                    old(self)@.in_string,
                    old(self)@.in_rune,
                ),
                self.input@ == input0,
                input0.len() < usize::MAX,
                self.anchor <= self.current_position,
                self.current_position <= input0.len(),
                self.is_parsing_string || self.is_parsing_rune || self.current_position
                    < input0.len() || self.anchor == self.current_position,
                self.errors@ == errs0,
                self.newline_before_current_token == (nl0 || nl_acc),
                step0 == ({
                    let cur = lex_scan(
                        input0,
                        self.current_position as int,
                        self.anchor as int,
                        self.is_parsing_string,
                        self.is_parsing_rune,
                    );
                    LexStep { newline: nl_acc || cur.newline, ..cur }
                }),
            decreases input0.len() - self.current_position,
        {
            let ghost pre_pos = self.current_position as int;
            let ghost pre_anchor = self.anchor as int;
            let ghost pre_in_s = self.is_parsing_string;
            let ghost pre_in_r = self.is_parsing_rune;
            let ghost cur = lex_scan(input0, pre_pos, pre_anchor, pre_in_s, pre_in_r);
            proof {
                reveal_strlit("");
                assert(""@ =~= Seq::<char>::empty());
            }
            match self.next() {
                Some(ch) => {
                    if is_whitespace(ch) && !self.is_parsing_string && !self.is_parsing_rune {
                        self.handle_whitespace();
                        proof {
                            nl_acc = nl_acc || (ch == '\n');
                        }
                    } else if self.is_parsing_string {
                        if ch == '"' {
                            let t = self.finalize_string();
                            proof {
                                assert(!is_space_char('"'));
                                assert(cur.token =~~= t@);
                                assert(errors_view(self.errors@) =~= errors_view(errs0)
                                    + error_seq(step0.error));
                            }
                            return t;
                        } else if ch == '\n' {
                            let error = LexerError::new(
                                LexerErrorKind::UnterminatedString(
                                    self.proposed_token(false).to_owned(),
                                ),
                                self.current_token_position(),
                            );
                            proof {
                                lemma_errors_view_push(self.errors@, error);
                            }
                            self.errors.push(error);
                            self.is_parsing_string = false;
                            self.anchor = self.current_position;
                            let t = Token::new("", self.current_token_position());
                            proof {
                                assert(cur.token =~~= t@);
                                assert(errors_view(self.errors@) =~= errors_view(errs0)
                                    + error_seq(step0.error));
                            }
                            return t;
                        } else if ch == '\\' {
                            let _ = self.next();
                        }
                    } else if self.is_parsing_rune {
                        if ch == '\'' {
                            let t = self.finalize_rune();
                            proof {
                                assert(cur.token =~~= t@);
                                assert(errors_view(self.errors@) =~= errors_view(errs0)
                                    + error_seq(step0.error));
                            }
                            return t;
                        } else if is_whitespace(ch) {
                            let error = LexerError::new(
                                LexerErrorKind::UnterminatedRune(
                                    self.proposed_token(false).to_owned(),
                                ),
                                self.current_token_position(),
                            );
                            proof {
                                lemma_errors_view_push(self.errors@, error);
                            }
                            self.errors.push(error);
                            self.is_parsing_rune = false;
                            self.anchor = self.current_position;
                            let t = Token::new("", self.current_token_position());
                            proof {
                                assert(cur.token =~~= t@);
                                assert(errors_view(self.errors@) =~= errors_view(errs0)
                                    + error_seq(step0.error));
                            }
                            return t;
                        } else if ch == '\\' {
                            let _ = self.next();
                        }
                    } else if ch == '"' {
                        self.is_parsing_string = true;
                        self.anchor = self.current_position - 1;
                    } else if ch == '\'' {
                        self.is_parsing_rune = true;
                        self.anchor = self.current_position - 1;
                    } else if is_symbol(ch) {
                        if let Some(token) = self.handle_symbol_char() {
                            proof {
                                assert(cur.token =~~= token@);
                                assert(errors_view(self.errors@) =~= errors_view(errs0)
                                    + error_seq(step0.error));
                            }
                            return token;
                        }
                    } else {
                        if let Some(token) = self.handle_word() {
                            proof {
                                assert(cur.token =~~= token@);
                                assert(errors_view(self.errors@) =~= errors_view(errs0)
                                    + error_seq(step0.error));
                            }
                            return token;
                        }
                    }
                },
                None => {
                    if self.is_parsing_string {
                        let error = LexerError::new(
                            LexerErrorKind::UnterminatedString(
                                self.proposed_token(false).to_owned(),
                            ),
                            self.current_token_position(),
                        );
                        proof {
                            lemma_errors_view_push(self.errors@, error);
                        }
                        self.errors.push(error);
                        self.is_parsing_string = false;
                        self.anchor = self.current_position;
                        let t = Token::new("", self.current_token_position());
                        proof {
                            assert(errors_view(self.errors@) =~= errors_view(errs0)
                                + error_seq(step0.error));
                        }
                        return t;
                    }
                    if self.is_parsing_rune {
                        let error = LexerError::new(
                            LexerErrorKind::UnterminatedRune(
                                self.proposed_token(false).to_owned(),
                            ),
                            self.current_token_position(),
                        );
                        proof {
                            lemma_errors_view_push(self.errors@, error);
                        }
                        self.errors.push(error);
                        self.is_parsing_rune = false;
                        self.anchor = self.current_position;
                        let t = Token::new("", self.current_token_position());
                        proof {
                            assert(errors_view(self.errors@) =~= errors_view(errs0)
                                + error_seq(step0.error));
                        }
                        return t;
                    }
                    let t = Token::new_with_kind(TokenKind::EOF, "", self.current_token_position());
                    proof {
                        assert(cur.token =~~= t@);
                        assert(errors_view(self.errors@) =~= errors_view(errs0)
                            + error_seq(step0.error));
                    }
                    return t;
                },
            }
        }
    }

    /// Looks ahead `lookahead` tokens non-destructively: the scan offset,
    /// anchor and literal flags are restored afterwards. The errors of the
    /// peeked scans stay recorded and a crossed newline stays noted.
    pub fn peek_tokens(&mut self, lookahead: usize) -> (tokens: Vec<Token>)
        requires
            old(self).wf(),
        ensures
            final(self).wf(),
            ({
                let run = lex_run(
                    old(self)@.input,
                    old(self)@.pos,
                    old(self)@.in_string,
                    old(self)@.in_rune,
                    lookahead as nat,
                );
                &&& tokens_view(tokens@) == run.tokens
                &&& final(self)@.input == old(self)@.input
                &&& final(self)@.pos == old(self)@.pos
                &&& final(self)@.in_string == old(self)@.in_string
                &&& final(self)@.in_rune == old(self)@.in_rune
                &&& final(self)@.newline == (old(self)@.newline || run.newline)
                &&& final(self)@.errors == old(self)@.errors + run.errors
            }),
    {
        let ghost input0 = self.input@;
        let ghost errs0 = self.errors@;
        let ghost nl0 = self.newline_before_current_token;
        let ghost run0 = lex_run(
            input0,
            self.current_position as int,
            self.is_parsing_string,
            self.is_parsing_rune,
            lookahead as nat,
        );
        let mut tokens: Vec<Token> = Vec::new();
        let current_position = self.current_position;
        let anchor = self.anchor;
        let is_parsing_string = self.is_parsing_string;
        let is_parsing_rune = self.is_parsing_rune;
        let ghost mut done_errors: Seq<LexerErrorView> = Seq::empty();
        let ghost mut nl_done = false;
        proof {
            assert(tokens_view(tokens@) =~= Seq::<TokenView>::empty());
        }
        let mut i: usize = 0;
        while i < lookahead
            invariant
                input0 == old(self)@.input,
                errors_view(errs0) == old(self)@.errors,
                nl0 == old(self)@.newline,
                run0 == lex_run(
                    old(self)@.input,
                    old(self)@.pos,
                    old(self)@.in_string,
                    old(self)@.in_rune,
                    lookahead as nat,
                ),
                current_position == old(self)@.pos,
                anchor as int == old(self)@.pos,
                is_parsing_string == old(self)@.in_string,
                is_parsing_rune == old(self)@.in_rune,
                i <= lookahead,
                self.wf(),
                self.input@ == input0,
                self.newline_before_current_token == (nl0 || nl_done),
                errors_view(self.errors@) == errors_view(errs0) + done_errors,
                run0 == ({
                    let rest = lex_run(
                        input0,
                        self@.pos,
                        self@.in_string,
                        self@.in_rune,
                        (lookahead - i) as nat,
                    );
                    LexRun {
                        tokens: tokens_view(tokens@) + rest.tokens,
                        errors: done_errors + rest.errors,
                        newline: nl_done || rest.newline,
                    }
                }),
            decreases lookahead - i,
        {
            let ghost pre = self@;
            let ghost rest_pre = lex_run(
                input0,
                pre.pos,
                pre.in_string,
                pre.in_rune,
                (lookahead - i) as nat,
            );
            let ghost toks_pre = tokens@;
            let ghost de_pre = done_errors;
            let token = self.next_token();
            proof {
                let step = lex_next(pre.input, pre.pos, pre.in_string, pre.in_rune);
                assert(tokens_view(toks_pre.push(token)) =~= tokens_view(toks_pre).push(token@));
                assert(tokens_view(toks_pre).push(step.token) =~= tokens_view(toks_pre) + seq![
                    step.token,
                ]);
                done_errors = done_errors + error_seq(step.error);
                nl_done = nl_done || step.newline;
            }
            tokens.push(token);
            i = i + 1;
            proof {
                let rest_now = lex_run(
                    input0,
                    self@.pos,
                    self@.in_string,
                    self@.in_rune,
                    (lookahead - i) as nat,
                );
                let step = lex_next(pre.input, pre.pos, pre.in_string, pre.in_rune);
                assert(rest_pre.tokens =~= seq![step.token] + rest_now.tokens);
                assert(tokens_view(tokens@) + rest_now.tokens =~= tokens_view(toks_pre)
                    + rest_pre.tokens);
                assert(rest_pre.errors =~= error_seq(step.error) + rest_now.errors);
                assert(de_pre + (error_seq(step.error) + rest_now.errors) =~= (de_pre + error_seq(
                    step.error,
                )) + rest_now.errors);
            }
        }
        proof {
            let rest_end = lex_run(
                input0,
                self@.pos,
                self@.in_string,
                self@.in_rune,
                0nat,
            );
            assert(tokens_view(tokens@) + rest_end.tokens =~= tokens_view(tokens@));
            assert(done_errors + rest_end.errors =~= done_errors);
        }
        self.current_position = current_position;
        self.anchor = anchor;
        self.is_parsing_string = is_parsing_string;
        self.is_parsing_rune = is_parsing_rune;
        proof {
            assert(errors_view(self.errors@) =~= errors_view(errs0) + run0.errors);
        }
        tokens
    }

    /// The errors recorded so far, in scan order.
    pub fn errors(&self) -> (r: &Vec<LexerError>)
        ensures
            errors_view(r@) == self@.errors,
    {
        &self.errors
    }

    /// Whether a newline was crossed before the most recently scanned token;
    /// reading the flag resets it.
    pub fn had_newline_before_current_token(&mut self) -> (r: bool)
        requires
            old(self).wf(),
        ensures
            final(self).wf(),
            r == old(self)@.newline,
            final(self)@ == (LexerView { newline: false, ..old(self)@ }),
    {
        let had_newline = self.newline_before_current_token;
        self.newline_before_current_token = false;
        had_newline
    }
}

/// Line feeds in a prefix, extended by one character.
proof fn lemma_newline_count_step(s: Seq<char>, i: int)
    requires
        0 <= i < s.len(),
    ensures
        newline_count(s.subrange(0, i + 1)) == newline_count(s.subrange(0, i)) + if s[i] == '\n' {
            1nat
        } else {
            0nat
        },
{
    let pre = s.subrange(0, i + 1);
    assert(pre.drop_last() =~= s.subrange(0, i));
    assert(pre.last() == s[i]);
}

/// A sequence holds at most as many line feeds as characters.
proof fn lemma_newline_count_le(s: Seq<char>)
    ensures
        newline_count(s) <= s.len(),
    decreases s.len(),
{
    if s.len() > 0 {
        lemma_newline_count_le(s.drop_last());
    }
}

/// Recording an error appends its view.
proof fn lemma_errors_view_push(es: Seq<LexerError>, e: LexerError)
    ensures
        errors_view(es.push(e)) == errors_view(es).push(e@),
{
    assert(errors_view(es.push(e)) =~= errors_view(es).push(e@));
}

impl Lexer {
    /// Consumes and returns the next character, advancing the scan offset;
    /// `None` at the end of input.
    fn next(&mut self) -> (c: Option<char>)
        requires
            old(self).current_position <= old(self).input@.len(),
        ensures
            final(self).input == old(self).input,
            final(self).anchor == old(self).anchor,
            final(self).errors == old(self).errors,
            final(self).is_parsing_string == old(self).is_parsing_string,
            final(self).is_parsing_rune == old(self).is_parsing_rune,
            final(self).newline_before_current_token == old(self).newline_before_current_token,
            if old(self).current_position < old(self).input@.len() {
                c == Some(old(self).input@[old(self).current_position as int])
                    && final(self).current_position == old(self).current_position + 1
            } else {
                c == None::<char> && final(self).current_position == old(self).current_position
            },
    {
        if self.current_position >= self.input.as_str().unicode_len() {
            return None;
        }
        let c = self.input.as_str().get_char(self.current_position);
        self.current_position = self.current_position + 1;
        Some(c)
    }

    /// The next character without consuming it.
    fn peek(&self) -> (c: Option<char>)
        ensures
            c == if self.current_position < self.input@.len() {
                Some(self.input@[self.current_position as int])
            } else {
                None::<char>
            },
    {
        if self.current_position >= self.input.as_str().unicode_len() {
            return None;
        }
        Some(self.input.as_str().get_char(self.current_position))
    }

    /// Whether the next character is a whitespace boundary; the end of input
    /// counts as one.
    fn peek_is_whitespace(&self) -> (r: bool)
        ensures
            r == peek_is_ws(self.input@, self.current_position as int),
    {
        match self.peek() {
            Some(c) => is_whitespace(c),
            None => true,
        }
    }

    /// The 1-based line number at the scan offset.
    fn current_line(&self) -> (r: usize)
        requires
            self.input@.len() < usize::MAX,
        ensures
            r as int == line_of(self.input@, self.current_position as int),
    {
        let len = self.input.as_str().unicode_len();
        let end = if self.current_position < len {
            self.current_position
        } else {
            len
        };
        let mut count: usize = 0;
        let mut i: usize = 0;
        while i < end
            invariant
                end <= self.input@.len() < usize::MAX,
                i <= end,
                count <= i,
                count == newline_count(self.input@.subrange(0, i as int)),
            decreases end - i,
        {
            proof {
                lemma_newline_count_step(self.input@, i as int);
            }
            if self.input.as_str().get_char(i) == '\n' {
                count = count + 1;
            }
            i = i + 1;
        }
        count + 1
    }

    /// The pending lexeme: the substring from the anchor up to the scan
    /// offset, or one character less if the offset already moved past it.
    fn proposed_token(&self, already_iterated: bool) -> (r: &str)
        requires
            already_iterated ==> self.anchor + 1 <= self.current_position,
            !already_iterated ==> self.anchor <= self.current_position,
            self.current_position <= self.input@.len(),
        ensures
            r@ == self.input@.subrange(
                self.anchor as int,
                self.current_position as int - if already_iterated {
                    1int
                } else {
                    0int
                },
            ),
    {
        let end = if already_iterated {
            self.current_position - 1
        } else {
            self.current_position
        };
        self.input.as_str().substring_char(self.anchor, end)
    }

    /// The position of the pending lexeme.
    fn current_token_position(&self) -> (p: Position)
        requires
            self.input@.len() < usize::MAX,
        ensures
            p == position_at(self.input@, self.anchor as int, self.current_position as int),
    {
        proof {
            lemma_newline_count_le(
                self.input@.subrange(
                    0,
                    if self.current_position as int <= self.input@.len() {
                        self.current_position as int
                    } else {
                        self.input@.len() as int
                    },
                ),
            );
        }
        Position::new(self.current_line(), self.anchor, self.current_position)
    }

    /// Applies the longest-match rule to the pending lexeme: a finished
    /// token, `None` to keep accumulating, or the error to record.
    fn tokenize(&self, value: &str) -> (r: Result<Option<Token>, LexerError>)
        requires
            self.input@.len() < usize::MAX,
            self.anchor <= self.current_position <= self.input@.len(),
            value@ == self.input@.subrange(self.anchor as int, self.current_position as int),
        ensures
            ({
                let d = spec_tokenize(
                    self.input@,
                    self.anchor as int,
                    self.current_position as int,
                );
                match r {
                    Ok(Some(t)) => d == ScanDecision::Emit(t@),
                    Ok(None) => d is Accumulate,
                    Err(e) => d == ScanDecision::Fail(e@),
                }
            }),
    {
        match TokenKind::from_str(value) {
            Some(_) => {
                if !self.peek_is_whitespace() {
                    let longer = self.input.as_str().substring_char(
                        self.anchor,
                        self.current_position + 1,
                    );
                    proof {
                        assert(longer@ =~= value@.push(
                            self.input@[self.current_position as int],
                        ));
                    }
                    if TokenKind::could_match(longer) {
                        return Ok(None);
                    }
                }
                Ok(Some(Token::new(value, self.current_token_position())))
            },
            None => {
                if !self.peek_is_whitespace() && TokenKind::could_match(value) {
                    return Ok(None);
                }
                Err(
                    LexerError::new(
                        LexerErrorKind::UnexpectedToken(value.to_owned()),
                        self.current_token_position(),
                    ),
                )
            },
        }
    }
}

impl Lexer {
    /// Finalizes the pending word lexeme: emits it, keeps accumulating, or
    /// records an error and emits a kind-less token.
    fn handle_word(&mut self) -> (r: Option<Token>)
        requires
            old(self).input@.len() < usize::MAX,
            old(self).anchor <= old(self).current_position <= old(self).input@.len(),
        ensures
            final(self).input == old(self).input,
            final(self).current_position == old(self).current_position,
            final(self).is_parsing_string == old(self).is_parsing_string,
            final(self).is_parsing_rune == old(self).is_parsing_rune,
            final(self).newline_before_current_token == old(self).newline_before_current_token,
            ({
                let d = spec_tokenize(
                    old(self).input@,
                    old(self).anchor as int,
                    old(self).current_position as int,
                );
                match d {
                    ScanDecision::Emit(tv) => {
                        &&& r matches Some(t) && t@ == tv
                        &&& final(self).anchor == final(self).current_position
                        &&& final(self).errors == old(self).errors
                    },
                    ScanDecision::Accumulate => {
                        &&& r is None
                        &&& final(self).anchor == old(self).anchor
                        &&& final(self).errors == old(self).errors
                    },
                    ScanDecision::Fail(ev) => {
                        &&& r matches Some(t) && t@ == (TokenView {
                            kind: None,
                            value: Seq::empty(),
                            position: position_at(
                                old(self).input@,
                                old(self).current_position as int,
                                old(self).current_position as int,
                            ),
                        })
                        &&& final(self).anchor == final(self).current_position
                        &&& errors_view(final(self).errors@) == errors_view(
                            old(self).errors@,
                        ).push(ev)
                    },
                }
            }),
    {
        proof {
            reveal_strlit("");
            assert(""@ =~= Seq::<char>::empty());
        }
        let value = self.proposed_token(false);
        match self.tokenize(value) {
            Ok(Some(token)) => match token.kind {
                None => None,
                _ => {
                    self.anchor = self.current_position;
                    Some(token)
                },
            },
            Ok(None) => None,
            Err(error) => {
                proof {
                    lemma_errors_view_push(self.errors@, error);
                }
                self.errors.push(error);
                self.anchor = self.current_position;
                Some(Token::new("", self.current_token_position()))
            },
        }
    }

    /// Finalizes the pending symbol lexeme under the same longest-match rule.
    fn handle_symbol(&mut self) -> (r: Option<Token>)
        requires
            old(self).input@.len() < usize::MAX,
            old(self).anchor <= old(self).current_position <= old(self).input@.len(),
        ensures
            final(self).input == old(self).input,
            final(self).current_position == old(self).current_position,
            final(self).is_parsing_string == old(self).is_parsing_string,
            final(self).is_parsing_rune == old(self).is_parsing_rune,
            final(self).newline_before_current_token == old(self).newline_before_current_token,
            ({
                let d = spec_tokenize(
                    old(self).input@,
                    old(self).anchor as int,
                    old(self).current_position as int,
                );
                match d {
                    ScanDecision::Emit(tv) => {
                        &&& r matches Some(t) && t@ == tv
                        &&& final(self).anchor == final(self).current_position
                        &&& final(self).errors == old(self).errors
                    },
                    ScanDecision::Accumulate => {
                        &&& r is None
                        &&& final(self).anchor == old(self).anchor
                        &&& final(self).errors == old(self).errors
                    },
                    ScanDecision::Fail(ev) => {
                        &&& r matches Some(t) && t@ == (TokenView {
                            kind: None,
                            value: Seq::empty(),
                            position: position_at(
                                old(self).input@,
                                old(self).current_position as int,
                                old(self).current_position as int,
                            ),
                        })
                        &&& final(self).anchor == final(self).current_position
                        &&& errors_view(final(self).errors@) == errors_view(
                            old(self).errors@,
                        ).push(ev)
                    },
                }
            }),
    {
        proof {
            reveal_strlit("");
            assert(""@ =~= Seq::<char>::empty());
        }
        let value = self.proposed_token(false);
        match self.tokenize(value) {
            Ok(Some(token)) => {
                self.anchor = self.current_position;
                Some(token)
            },
            Ok(None) => None,
            Err(error) => {
                proof {
                    lemma_errors_view_push(self.errors@, error);
                }
                self.errors.push(error);
                self.anchor = self.current_position;
                Some(Token::new("", self.current_token_position()))
            },
        }
    }

    /// On a symbol character: if a non-symbol lexeme is pending, finalizes
    /// it first and rewinds the scan offset so the symbol is reprocessed;
    /// otherwise grows the symbol lexeme.
    fn handle_symbol_char(&mut self) -> (r: Option<Token>)
        requires
            old(self).input@.len() < usize::MAX,
            old(self).current_position >= 1,
            old(self).anchor <= old(self).current_position - 1,
            old(self).current_position <= old(self).input@.len(),
        ensures
            final(self).input == old(self).input,
            final(self).is_parsing_string == old(self).is_parsing_string,
            final(self).is_parsing_rune == old(self).is_parsing_rune,
            final(self).newline_before_current_token == old(self).newline_before_current_token,
            ({
                let input = old(self).input@;
                let anchor = old(self).anchor as int;
                let sp = old(self).current_position as int - 1;
                if anchor < sp && !all_symbol_chars(input.subrange(anchor, sp)) {
                    let pending = input.subrange(anchor, sp);
                    &&& final(self).current_position == sp
                    &&& final(self).anchor == sp
                    &&& if spec_classify(pending) is Some {
                        &&& r matches Some(t) && t@ == (TokenView {
                            kind: spec_classify(pending),
                            value: pending,
                            position: position_at(input, anchor, sp),
                        })
                        &&& final(self).errors == old(self).errors
                    } else {
                        &&& r matches Some(t) && t@ == (TokenView {
                            kind: None,
                            value: Seq::empty(),
                            position: position_at(input, anchor, sp),
                        })
                        &&& errors_view(final(self).errors@) == errors_view(
                            old(self).errors@,
                        ).push(
                            LexerErrorView {
                                kind: LexerErrorKindView::UnexpectedToken(pending),
                                position: position_at(input, anchor, sp),
                            },
                        )
                    }
                } else {
                    let d = spec_tokenize(input, anchor, old(self).current_position as int);
                    &&& final(self).current_position == old(self).current_position
                    &&& match d {
                        ScanDecision::Emit(tv) => {
                            &&& r matches Some(t) && t@ == tv
                            &&& final(self).anchor == final(self).current_position
                            &&& final(self).errors == old(self).errors
                        },
                        ScanDecision::Accumulate => {
                            &&& r is None
                            &&& final(self).anchor == old(self).anchor
                            &&& final(self).errors == old(self).errors
                        },
                        ScanDecision::Fail(ev) => {
                            &&& r matches Some(t) && t@ == (TokenView {
                                kind: None,
                                value: Seq::empty(),
                                position: position_at(
                                    input,
                                    old(self).current_position as int,
                                    old(self).current_position as int,
                                ),
                            })
                            &&& final(self).anchor == final(self).current_position
                            &&& errors_view(final(self).errors@) == errors_view(
                                old(self).errors@,
                            ).push(ev)
                        },
                    }
                }
            }),
    {
        proof {
            reveal_strlit("");
            assert(""@ =~= Seq::<char>::empty());
        }
        let symbol_pos = self.current_position - 1;
        if self.anchor < symbol_pos {
            let pending_value = self.input.as_str().substring_char(self.anchor, symbol_pos);
            if !all_symbols_str(pending_value) {
                self.current_position = symbol_pos;
                proof {
                    lemma_newline_count_le(
                        self.input@.subrange(0, symbol_pos as int),
                    );
                }
                let line = self.current_line();
                let word_token = match TokenKind::from_str(pending_value) {
                    Some(_) => Token::new(
                        pending_value,
                        Position::new(line, self.anchor, symbol_pos),
                    ),
                    None => {
                        let error = LexerError::new(
                            LexerErrorKind::UnexpectedToken(pending_value.to_owned()),
                            Position::new(line, self.anchor, symbol_pos),
                        );
                        proof {
                            lemma_errors_view_push(self.errors@, error);
                        }
                        self.errors.push(error);
                        Token::new("", Position::new(line, self.anchor, symbol_pos))
                    },
                };
                self.anchor = symbol_pos;
                return Some(word_token);
            }
        }
        self.handle_symbol()
    }

    /// Closes the open string literal, spanning both quotes.
    fn finalize_string(&mut self) -> (t: Token)
        requires
            old(self).input@.len() < usize::MAX,
            old(self).anchor <= old(self).current_position <= old(self).input@.len(),
        ensures
            final(self).input == old(self).input,
            final(self).current_position == old(self).current_position,
            final(self).anchor == final(self).current_position,
            final(self).errors == old(self).errors,
            final(self).is_parsing_string == false,
            final(self).is_parsing_rune == old(self).is_parsing_rune,
            final(self).newline_before_current_token == old(self).newline_before_current_token,
            t@ == (TokenView {
                kind: Some(TokenKind::StringLiteral),
                value: old(self).input@.subrange(
                    old(self).anchor as int,
                    old(self).current_position as int,
                ),
                position: position_at(
                    old(self).input@,
                    old(self).anchor as int,
                    old(self).current_position as int,
                ),
            }),
    {
        self.is_parsing_string = false;
        let string_content = self.input.as_str().substring_char(
            self.anchor,
            self.current_position,
        );
        let token = Token::new_with_kind(
            TokenKind::StringLiteral,
            string_content,
            self.current_token_position(),
        );
        self.anchor = self.current_position;
        token
    }

    /// Closes the open rune literal, spanning both quotes.
    fn finalize_rune(&mut self) -> (t: Token)
        requires
            old(self).input@.len() < usize::MAX,
            old(self).anchor <= old(self).current_position <= old(self).input@.len(),
        ensures
            final(self).input == old(self).input,
            final(self).current_position == old(self).current_position,
            final(self).anchor == final(self).current_position,
            final(self).errors == old(self).errors,
            final(self).is_parsing_string == old(self).is_parsing_string,
            final(self).is_parsing_rune == false,
            final(self).newline_before_current_token == old(self).newline_before_current_token,
            t@ == (TokenView {
                kind: Some(TokenKind::RuneLiteral),
                value: old(self).input@.subrange(
                    old(self).anchor as int,
                    old(self).current_position as int,
                ),
                position: position_at(
                    old(self).input@,
                    old(self).anchor as int,
                    old(self).current_position as int,
                ),
            }),
    {
        self.is_parsing_rune = false;
        let rune_content = self.input.as_str().substring_char(self.anchor, self.current_position);
        let token = Token::new_with_kind(
            TokenKind::RuneLiteral,
            rune_content,
            self.current_token_position(),
        );
        self.anchor = self.current_position;
        token
    }

    /// Moves the anchor past the consumed whitespace character, noting a
    /// crossed newline.
    fn handle_whitespace(&mut self)
        requires
            1 <= old(self).current_position <= old(self).input@.len(),
        ensures
            final(self).input == old(self).input,
            final(self).current_position == old(self).current_position,
            final(self).anchor == old(self).current_position,
            final(self).errors == old(self).errors,
            final(self).is_parsing_string == old(self).is_parsing_string,
            final(self).is_parsing_rune == old(self).is_parsing_rune,
            final(self).newline_before_current_token == (
            old(self).newline_before_current_token || old(self).input@[old(
                self,
            ).current_position as int - 1] == '\n'),
    {
        if self.input.as_str().get_char(self.current_position - 1) == '\n' {
            self.newline_before_current_token = true;
        }
        self.anchor = self.current_position;
    }
}

/// Whether every character of the slice is a symbol character.
fn all_symbols_str(s: &str) -> (r: bool)
    ensures
        r == all_symbol_chars(s@),
{
    let n = s.unicode_len();
    let mut i: usize = 0;
    while i < n
        invariant
            n == s@.len(),
            i <= n,
            forall|j: int| 0 <= j < i ==> is_symbol_char(#[trigger] s@[j]),
        decreases n - i,
    {
        if !is_symbol(s.get_char(i)) {
            return false;
        }
        i += 1;
    }
    true
}

/// What well-formedness guarantees about the public state: the scan offset
/// stays within the input, whose length fits the machine.
pub proof fn lemma_lexer_wf(l: &Lexer)
    requires
        l.wf(),
    ensures
        0 <= l@.pos <= l@.input.len(),
        l@.input.len() < usize::MAX,
{
}

/// Whether the character is one of the fixed operator or punctuation
/// characters.
fn is_symbol(c: char) -> (r: bool)
    ensures
        r == is_symbol_char(c),
{
    match c {
        '+' | '-' | '*' | '/' | '%' | '&' | '|' | '^' | '<' | '>' | '=' | '!' | '.' | ':' | ','
            | ';' | '(' | ')' | '[' | ']' | '{' | '}' => true,
        _ => false,
    }
}

/// Whether the character is scanner whitespace: space, tab, carriage return
/// or line feed.
fn is_whitespace(c: char) -> (r: bool)
    ensures
        r == is_space_char(c),
{
    match c {
        '\n' | '\t' | '\r' | ' ' => true,
        _ => false,
    }
}

/// Scanning a lexeme that has identifier shape accumulates it to the end of
/// the input and emits it whole, classified, with no error.
proof fn lemma_scan_word(input: Seq<char>, k: int)
    requires
        crate::token_type::is_identifier_seq(input),
        0 <= k < input.len(),
    ensures
        lex_scan(input, k, 0, false, false) == (LexStep {
            token: TokenView {
                kind: spec_classify(input),
                value: input,
                position: position_at(input, 0, input.len() as int),
            },
            new_pos: input.len() as int,
            in_string: false,
            in_rune: false,
            error: None,
            newline: false,
        }),
    decreases input.len() - k,
{
    let c = input[k];
    assert(crate::token_type::is_word_char(c));
    let p1 = k + 1;
    let value = input.subrange(0, p1);
    assert(value[0] == input[0]);
    assert forall|i: int| 0 <= i < value.len() implies crate::token_type::is_word_char(
        #[trigger] value[i],
    ) by {
        assert(value[i] == input[i]);
    }
    assert(crate::token_type::is_identifier_seq(value));
    assert(!crate::token_type::is_space_char(value[0]));
    assert(!crate::token_type::all_whitespace(value));
    assert(spec_classify(value) is Some);
    if p1 < input.len() {
        let longer = value.push(input[p1]);
        assert(longer =~= input.subrange(0, p1 + 1));
        assert(longer[0] == input[0]);
        assert forall|i: int| 0 <= i < longer.len() implies crate::token_type::is_word_char(
            #[trigger] longer[i],
        ) by {
            assert(longer[i] == input[i]);
        }
        assert(crate::token_type::is_identifier_seq(longer));
        assert(spec_could_match(longer));
        assert(spec_tokenize(input, 0, p1) is Accumulate);
        lemma_scan_word(input, p1);
    } else {
        assert(value =~= input);
        assert(spec_tokenize(input, 0, p1) matches ScanDecision::Emit(t));
    }
}

/// Each reserved word, fed alone as input, is scanned as a single keyword
/// token spanning the whole input, with no error, and the next token is the
/// end of input.
pub proof fn lemma_keyword_alone(s: Seq<char>)
    requires
        crate::token_type::keyword_of(s) is Some,
    ensures
        ({
            let first = lex_next(s, 0, false, false);
            &&& first.token.kind == Some(
                TokenKind::Keyword(crate::token_type::keyword_of(s)->Some_0),
            )
            &&& first.token.value == s
            &&& first.error is None
            &&& lex_next(s, first.new_pos, false, false).token.kind == Some(TokenKind::EOF)
        }),
{
    if s == "break"@ {
        reveal_strlit("break");
        assert(crate::token_type::is_identifier_seq(s)) by {
            assert forall|i: int| 0 <= i < s.len() implies crate::token_type::is_word_char(
                #[trigger] s[i],
            ) by {
            }
        }
    } else if s == "case"@ {
        reveal_strlit("case");
        assert(crate::token_type::is_identifier_seq(s)) by {
            assert forall|i: int| 0 <= i < s.len() implies crate::token_type::is_word_char(
                #[trigger] s[i],
            ) by {
            }
        }
    } else if s == "chan"@ {
        reveal_strlit("chan");
        assert(crate::token_type::is_identifier_seq(s)) by {
            assert forall|i: int| 0 <= i < s.len() implies crate::token_type::is_word_char(
                #[trigger] s[i],
            ) by {
            }
        }
    } else if s == "const"@ {
        reveal_strlit("const");
        assert(crate::token_type::is_identifier_seq(s)) by {
            assert forall|i: int| 0 <= i < s.len() implies crate::token_type::is_word_char(
                #[trigger] s[i],
            ) by {
            }
        }
    } else if s == "continue"@ {
        reveal_strlit("continue");
        assert(crate::token_type::is_identifier_seq(s)) by {
            assert forall|i: int| 0 <= i < s.len() implies crate::token_type::is_word_char(
                #[trigger] s[i],
            ) by {
            }
        }
    } else if s == "default"@ {
        reveal_strlit("default");
        assert(crate::token_type::is_identifier_seq(s)) by {
            assert forall|i: int| 0 <= i < s.len() implies crate::token_type::is_word_char(
                #[trigger] s[i],
            ) by {
            }
        }
    } else if s == "defer"@ {
        reveal_strlit("defer");
        assert(crate::token_type::is_identifier_seq(s)) by {
            assert forall|i: int| 0 <= i < s.len() implies crate::token_type::is_word_char(
                #[trigger] s[i],
            ) by {
            }
        }
    } else if s == "else"@ {
        reveal_strlit("else");
        assert(crate::token_type::is_identifier_seq(s)) by {
            assert forall|i: int| 0 <= i < s.len() implies crate::token_type::is_word_char(
                #[trigger] s[i],
            ) by {
            }
        }
    } else if s == "fallthrough"@ {
        reveal_strlit("fallthrough");
        assert(crate::token_type::is_identifier_seq(s)) by {
            assert forall|i: int| 0 <= i < s.len() implies crate::token_type::is_word_char(
                #[trigger] s[i],
            ) by {
            }
        }
    } else if s == "for"@ {
        reveal_strlit("for");
        assert(crate::token_type::is_identifier_seq(s)) by {
            assert forall|i: int| 0 <= i < s.len() implies crate::token_type::is_word_char(
                #[trigger] s[i],
            ) by {
            }
        }
    } else if s == "go"@ {
        reveal_strlit("go");
        assert(crate::token_type::is_identifier_seq(s)) by {
            assert forall|i: int| 0 <= i < s.len() implies crate::token_type::is_word_char(
                #[trigger] s[i],
            ) by {
            }
        }
    } else if s == "goto"@ {
        reveal_strlit("goto");
        assert(crate::token_type::is_identifier_seq(s)) by {
            assert forall|i: int| 0 <= i < s.len() implies crate::token_type::is_word_char(
                #[trigger] s[i],
            ) by {
            }
        }
    } else if s == "if"@ {
        reveal_strlit("if");
        assert(crate::token_type::is_identifier_seq(s)) by {
            assert forall|i: int| 0 <= i < s.len() implies crate::token_type::is_word_char(
                #[trigger] s[i],
            ) by {
            }
        }
    } else if s == "import"@ {
        reveal_strlit("import");
        assert(crate::token_type::is_identifier_seq(s)) by {
            assert forall|i: int| 0 <= i < s.len() implies crate::token_type::is_word_char(
                #[trigger] s[i],
            ) by {
            }
        }
    } else if s == "interface"@ {
        reveal_strlit("interface");
        assert(crate::token_type::is_identifier_seq(s)) by {
            assert forall|i: int| 0 <= i < s.len() implies crate::token_type::is_word_char(
                #[trigger] s[i],
            ) by {
            }
        }
    } else if s == "map"@ {
        reveal_strlit("map");
        assert(crate::token_type::is_identifier_seq(s)) by {
            assert forall|i: int| 0 <= i < s.len() implies crate::token_type::is_word_char(
                #[trigger] s[i],
            ) by {
            }
        }
    } else if s == "package"@ {
        reveal_strlit("package");
        assert(crate::token_type::is_identifier_seq(s)) by {
            assert forall|i: int| 0 <= i < s.len() implies crate::token_type::is_word_char(
                #[trigger] s[i],
            ) by {
            }
        }
    } else if s == "range"@ {
        reveal_strlit("range");
        assert(crate::token_type::is_identifier_seq(s)) by {
            assert forall|i: int| 0 <= i < s.len() implies crate::token_type::is_word_char(
                #[trigger] s[i],
            ) by {
            }
        }
    } else if s == "return"@ {
        reveal_strlit("return");
        assert(crate::token_type::is_identifier_seq(s)) by {
            assert forall|i: int| 0 <= i < s.len() implies crate::token_type::is_word_char(
                #[trigger] s[i],
            ) by {
            }
        }
    } else if s == "select"@ {
        reveal_strlit("select");
        assert(crate::token_type::is_identifier_seq(s)) by {
            assert forall|i: int| 0 <= i < s.len() implies crate::token_type::is_word_char(
                #[trigger] s[i],
            ) by {
            }
        }
    } else if s == "struct"@ {
        reveal_strlit("struct");
        assert(crate::token_type::is_identifier_seq(s)) by {
            assert forall|i: int| 0 <= i < s.len() implies crate::token_type::is_word_char(
                #[trigger] s[i],
            ) by {
            }
        }
    } else if s == "switch"@ {
        reveal_strlit("switch");
        assert(crate::token_type::is_identifier_seq(s)) by {
            assert forall|i: int| 0 <= i < s.len() implies crate::token_type::is_word_char(
                #[trigger] s[i],
            ) by {
            }
        }
    } else if s == "type"@ {
        reveal_strlit("type");
        assert(crate::token_type::is_identifier_seq(s)) by {
            assert forall|i: int| 0 <= i < s.len() implies crate::token_type::is_word_char(
                #[trigger] s[i],
            ) by {
            }
        }
    } else if s == "var"@ {
        reveal_strlit("var");
        assert(crate::token_type::is_identifier_seq(s)) by {
            assert forall|i: int| 0 <= i < s.len() implies crate::token_type::is_word_char(
                #[trigger] s[i],
            ) by {
            }
        }
    } else if s == "func"@ {
        reveal_strlit("func");
        assert(crate::token_type::is_identifier_seq(s)) by {
            assert forall|i: int| 0 <= i < s.len() implies crate::token_type::is_word_char(
                #[trigger] s[i],
            ) by {
            }
        }
    }
    assert(crate::token_type::is_identifier_seq(s));
    lemma_scan_word(s, 0);
    assert(!crate::token_type::is_space_char(s[0]));
    assert(!crate::token_type::all_whitespace(s));
    assert(spec_classify(s) == Some(
        TokenKind::Keyword(crate::token_type::keyword_of(s)->Some_0),
    ));
}

/// Scanning a lexeme of operator characters, every prefix of which could
/// still grow into a valid token, accumulates it to the end of the input and
/// emits it whole: maximal munch.
proof fn lemma_scan_symbol(input: Seq<char>, k: int)
    requires
        input.len() > 0,
        all_symbol_chars(input),
        spec_classify(input) is Some,
        forall|j: int| 1 <= j <= input.len() ==> spec_could_match(#[trigger] input.subrange(0, j)),
        0 <= k < input.len(),
    ensures
        lex_scan(input, k, 0, false, false) == (LexStep {
            token: TokenView {
                kind: spec_classify(input),
                value: input,
                position: position_at(input, 0, input.len() as int),
            },
            new_pos: input.len() as int,
            in_string: false,
            in_rune: false,
            error: None,
            newline: false,
        }),
    decreases input.len() - k,
{
    let c = input[k];
    assert(is_symbol_char(c));
    assert(!crate::token_type::is_space_char(c));
    let p1 = k + 1;
    let value = input.subrange(0, p1);
    if k > 0 {
        let pending = input.subrange(0, k);
        assert forall|i: int| 0 <= i < pending.len() implies is_symbol_char(
            #[trigger] pending[i],
        ) by {
            assert(pending[i] == input[i]);
        }
        assert(all_symbol_chars(pending));
    }
    if p1 < input.len() {
        assert(is_symbol_char(input[p1]));
        assert(!crate::token_type::is_space_char(input[p1]));
        assert(!peek_is_ws(input, p1));
        if spec_classify(value) is Some {
            assert(value.push(input[p1]) =~= input.subrange(0, p1 + 1));
            assert(spec_could_match(input.subrange(0, p1 + 1)));
            assert(spec_tokenize(input, 0, p1) is Accumulate);
        } else {
            assert(spec_could_match(input.subrange(0, p1)));
            assert(spec_tokenize(input, 0, p1) is Accumulate);
        }
        lemma_scan_symbol(input, p1);
    } else {
        assert(value =~= input);
        assert(spec_tokenize(input, 0, p1) matches ScanDecision::Emit(t));
    }
}

/// Maximal munch: each fixed operator or punctuation lexeme, fed alone as
/// input, is scanned as one token spanning the whole input and classified as
/// the whole lexeme, never split into shorter fragments, with no error, and
/// the next token is the end of input.
#[verifier::rlimit(100)]
pub proof fn lemma_fixed_token_alone(s: Seq<char>)
    requires
        crate::token_type::fixed_of(s) is Some,
    ensures
        ({
            let first = lex_next(s, 0, false, false);
            &&& first.token.kind == spec_classify(s)
            &&& spec_classify(s) == crate::token_type::fixed_of(s)
            &&& first.token.value == s
            &&& first.error is None
            &&& lex_next(s, first.new_pos, false, false).token.kind == Some(TokenKind::EOF)
        }),
{
    if s == "..."@ {
        reveal_strlit("...");
        assert(all_symbol_chars(s)) by {
            assert forall|i: int| 0 <= i < s.len() implies is_symbol_char(#[trigger] s[i]) by {
            }
        }
        assert forall|j: int| 1 <= j <= s.len() implies spec_could_match(
            #[trigger] s.subrange(0, j),
        ) by {
            assert(crate::token_type::is_prefix_of(s.subrange(0, j), "..."@));
        }
        assert(spec_classify(s) is Some);
        lemma_scan_symbol(s, 0);
    } else if s == "<<="@ {
        reveal_strlit("<<=");
        assert(all_symbol_chars(s)) by {
            assert forall|i: int| 0 <= i < s.len() implies is_symbol_char(#[trigger] s[i]) by {
            }
        }
        assert forall|j: int| 1 <= j <= s.len() implies spec_could_match(
            #[trigger] s.subrange(0, j),
        ) by {
            assert(crate::token_type::is_prefix_of(s.subrange(0, j), "<<="@));
        }
        assert(spec_classify(s) is Some);
        lemma_scan_symbol(s, 0);
    } else if s == ">>="@ {
        reveal_strlit(">>=");
        assert(all_symbol_chars(s)) by {
            assert forall|i: int| 0 <= i < s.len() implies is_symbol_char(#[trigger] s[i]) by {
            }
        }
        assert forall|j: int| 1 <= j <= s.len() implies spec_could_match(
            #[trigger] s.subrange(0, j),
        ) by {
            assert(crate::token_type::is_prefix_of(s.subrange(0, j), ">>="@));
        }
        assert(spec_classify(s) is Some);
        lemma_scan_symbol(s, 0);
    } else if s == "&^="@ {
        reveal_strlit("&^=");
        assert(all_symbol_chars(s)) by {
            assert forall|i: int| 0 <= i < s.len() implies is_symbol_char(#[trigger] s[i]) by {
            }
        }
        assert forall|j: int| 1 <= j <= s.len() implies spec_could_match(
            #[trigger] s.subrange(0, j),
        ) by {
            assert(crate::token_type::is_prefix_of(s.subrange(0, j), "&^="@));
        }
        assert(spec_classify(s) is Some);
        lemma_scan_symbol(s, 0);
    } else if s == "=="@ {
        reveal_strlit("==");
        assert(all_symbol_chars(s)) by {
            assert forall|i: int| 0 <= i < s.len() implies is_symbol_char(#[trigger] s[i]) by {
            }
        }
        assert forall|j: int| 1 <= j <= s.len() implies spec_could_match(
            #[trigger] s.subrange(0, j),
        ) by {
            assert(crate::token_type::is_prefix_of(s.subrange(0, j), "=="@));
        }
        assert(spec_classify(s) is Some);
        lemma_scan_symbol(s, 0);
    } else if s == "!="@ {
        reveal_strlit("!=");
        assert(all_symbol_chars(s)) by {
            assert forall|i: int| 0 <= i < s.len() implies is_symbol_char(#[trigger] s[i]) by {
            }
        }
        assert forall|j: int| 1 <= j <= s.len() implies spec_could_match(
            #[trigger] s.subrange(0, j),
        ) by {
            assert(crate::token_type::is_prefix_of(s.subrange(0, j), "!="@));
        }
        assert(spec_classify(s) is Some);
        lemma_scan_symbol(s, 0);
    } else if s == "&&"@ {
        reveal_strlit("&&");
        assert(all_symbol_chars(s)) by {
            assert forall|i: int| 0 <= i < s.len() implies is_symbol_char(#[trigger] s[i]) by {
            }
        }
        assert forall|j: int| 1 <= j <= s.len() implies spec_could_match(
            #[trigger] s.subrange(0, j),
        ) by {
            assert(crate::token_type::is_prefix_of(s.subrange(0, j), "&&"@));
        }
        assert(spec_classify(s) is Some);
        lemma_scan_symbol(s, 0);
    } else if s == "||"@ {
        reveal_strlit("||");
        assert(all_symbol_chars(s)) by {
            assert forall|i: int| 0 <= i < s.len() implies is_symbol_char(#[trigger] s[i]) by {
            }
        }
        assert forall|j: int| 1 <= j <= s.len() implies spec_could_match(
            #[trigger] s.subrange(0, j),
        ) by {
            assert(crate::token_type::is_prefix_of(s.subrange(0, j), "||"@));
        }
        assert(spec_classify(s) is Some);
        lemma_scan_symbol(s, 0);
    } else if s == "+="@ {
        reveal_strlit("+=");
        assert(all_symbol_chars(s)) by {
            assert forall|i: int| 0 <= i < s.len() implies is_symbol_char(#[trigger] s[i]) by {
            }
        }
        assert forall|j: int| 1 <= j <= s.len() implies spec_could_match(
            #[trigger] s.subrange(0, j),
        ) by {
            assert(crate::token_type::is_prefix_of(s.subrange(0, j), "+="@));
        }
        assert(spec_classify(s) is Some);
        lemma_scan_symbol(s, 0);
    } else if s == "-="@ {
        reveal_strlit("-=");
        assert(all_symbol_chars(s)) by {
            assert forall|i: int| 0 <= i < s.len() implies is_symbol_char(#[trigger] s[i]) by {
            }
        }
        assert forall|j: int| 1 <= j <= s.len() implies spec_could_match(
            #[trigger] s.subrange(0, j),
        ) by {
            assert(crate::token_type::is_prefix_of(s.subrange(0, j), "-="@));
        }
        assert(spec_classify(s) is Some);
        lemma_scan_symbol(s, 0);
    } else if s == "*="@ {
        reveal_strlit("*=");
        assert(all_symbol_chars(s)) by {
            assert forall|i: int| 0 <= i < s.len() implies is_symbol_char(#[trigger] s[i]) by {
            }
        }
        assert forall|j: int| 1 <= j <= s.len() implies spec_could_match(
            #[trigger] s.subrange(0, j),
        ) by {
            assert(crate::token_type::is_prefix_of(s.subrange(0, j), "*="@));
        }
        assert(spec_classify(s) is Some);
        lemma_scan_symbol(s, 0);
    } else if s == "/="@ {
        reveal_strlit("/=");
        assert(all_symbol_chars(s)) by {
            assert forall|i: int| 0 <= i < s.len() implies is_symbol_char(#[trigger] s[i]) by {
            }
        }
        assert forall|j: int| 1 <= j <= s.len() implies spec_could_match(
            #[trigger] s.subrange(0, j),
        ) by {
            assert(crate::token_type::is_prefix_of(s.subrange(0, j), "/="@));
        }
        assert(spec_classify(s) is Some);
        lemma_scan_symbol(s, 0);
    } else if s == "%="@ {
        reveal_strlit("%=");
        assert(all_symbol_chars(s)) by {
            assert forall|i: int| 0 <= i < s.len() implies is_symbol_char(#[trigger] s[i]) by {
            }
        }
        assert forall|j: int| 1 <= j <= s.len() implies spec_could_match(
            #[trigger] s.subrange(0, j),
        ) by {
            assert(crate::token_type::is_prefix_of(s.subrange(0, j), "%="@));
        }
        assert(spec_classify(s) is Some);
        lemma_scan_symbol(s, 0);
    } else if s == "&="@ {
        reveal_strlit("&=");
        assert(all_symbol_chars(s)) by {
            assert forall|i: int| 0 <= i < s.len() implies is_symbol_char(#[trigger] s[i]) by {
            }
        }
        assert forall|j: int| 1 <= j <= s.len() implies spec_could_match(
            #[trigger] s.subrange(0, j),
        ) by {
            assert(crate::token_type::is_prefix_of(s.subrange(0, j), "&="@));
        }
        assert(spec_classify(s) is Some);
        lemma_scan_symbol(s, 0);
    } else if s == "|="@ {
        reveal_strlit("|=");
        assert(all_symbol_chars(s)) by {
            assert forall|i: int| 0 <= i < s.len() implies is_symbol_char(#[trigger] s[i]) by {
            }
        }
        assert forall|j: int| 1 <= j <= s.len() implies spec_could_match(
            #[trigger] s.subrange(0, j),
        ) by {
            assert(crate::token_type::is_prefix_of(s.subrange(0, j), "|="@));
        }
        assert(spec_classify(s) is Some);
        lemma_scan_symbol(s, 0);
    } else if s == "^="@ {
        reveal_strlit("^=");
        assert(all_symbol_chars(s)) by {
            assert forall|i: int| 0 <= i < s.len() implies is_symbol_char(#[trigger] s[i]) by {
            }
        }
        assert forall|j: int| 1 <= j <= s.len() implies spec_could_match(
            #[trigger] s.subrange(0, j),
        ) by {
            assert(crate::token_type::is_prefix_of(s.subrange(0, j), "^="@));
        }
        assert(spec_classify(s) is Some);
        lemma_scan_symbol(s, 0);
    } else if s == "<-"@ {
        reveal_strlit("<-");
        assert(all_symbol_chars(s)) by {
            assert forall|i: int| 0 <= i < s.len() implies is_symbol_char(#[trigger] s[i]) by {
            }
        }
        assert forall|j: int| 1 <= j <= s.len() implies spec_could_match(
            #[trigger] s.subrange(0, j),
        ) by {
            assert(crate::token_type::is_prefix_of(s.subrange(0, j), "<-"@));
        }
        assert(spec_classify(s) is Some);
        lemma_scan_symbol(s, 0);
    } else if s == "++"@ {
        reveal_strlit("++");
        assert(all_symbol_chars(s)) by {
            assert forall|i: int| 0 <= i < s.len() implies is_symbol_char(#[trigger] s[i]) by {
            }
        }
        assert forall|j: int| 1 <= j <= s.len() implies spec_could_match(
            #[trigger] s.subrange(0, j),
        ) by {
            assert(crate::token_type::is_prefix_of(s.subrange(0, j), "++"@));
        }
        assert(spec_classify(s) is Some);
        lemma_scan_symbol(s, 0);
    } else if s == "--"@ {
        reveal_strlit("--");
        assert(all_symbol_chars(s)) by {
            assert forall|i: int| 0 <= i < s.len() implies is_symbol_char(#[trigger] s[i]) by {
            }
        }
        assert forall|j: int| 1 <= j <= s.len() implies spec_could_match(
            #[trigger] s.subrange(0, j),
        ) by {
            assert(crate::token_type::is_prefix_of(s.subrange(0, j), "--"@));
        }
        assert(spec_classify(s) is Some);
        lemma_scan_symbol(s, 0);
    } else if s == ":="@ {
        reveal_strlit(":=");
        assert(all_symbol_chars(s)) by {
            assert forall|i: int| 0 <= i < s.len() implies is_symbol_char(#[trigger] s[i]) by {
            }
        }
        assert forall|j: int| 1 <= j <= s.len() implies spec_could_match(
            #[trigger] s.subrange(0, j),
        ) by {
            assert(crate::token_type::is_prefix_of(s.subrange(0, j), ":="@));
        }
        assert(spec_classify(s) is Some);
        lemma_scan_symbol(s, 0);
    } else if s == "<"@ {
        reveal_strlit("<");
        assert(all_symbol_chars(s)) by {
            assert forall|i: int| 0 <= i < s.len() implies is_symbol_char(#[trigger] s[i]) by {
            }
        }
        assert forall|j: int| 1 <= j <= s.len() implies spec_could_match(
            #[trigger] s.subrange(0, j),
        ) by {
            assert(crate::token_type::is_prefix_of(s.subrange(0, j), "<"@));
        }
        assert(spec_classify(s) is Some);
        lemma_scan_symbol(s, 0);
    } else if s == "<="@ {
        reveal_strlit("<=");
        assert(all_symbol_chars(s)) by {
            assert forall|i: int| 0 <= i < s.len() implies is_symbol_char(#[trigger] s[i]) by {
            }
        }
        assert forall|j: int| 1 <= j <= s.len() implies spec_could_match(
            #[trigger] s.subrange(0, j),
        ) by {
            assert(crate::token_type::is_prefix_of(s.subrange(0, j), "<="@));
        }
        assert(spec_classify(s) is Some);
        lemma_scan_symbol(s, 0);
    } else if s == ">"@ {
        reveal_strlit(">");
        assert(all_symbol_chars(s)) by {
            assert forall|i: int| 0 <= i < s.len() implies is_symbol_char(#[trigger] s[i]) by {
            }
        }
        assert forall|j: int| 1 <= j <= s.len() implies spec_could_match(
            #[trigger] s.subrange(0, j),
        ) by {
            assert(crate::token_type::is_prefix_of(s.subrange(0, j), ">"@));
        }
        assert(spec_classify(s) is Some);
        lemma_scan_symbol(s, 0);
    } else if s == ">="@ {
        reveal_strlit(">=");
        assert(all_symbol_chars(s)) by {
            assert forall|i: int| 0 <= i < s.len() implies is_symbol_char(#[trigger] s[i]) by {
            }
        }
        assert forall|j: int| 1 <= j <= s.len() implies spec_could_match(
            #[trigger] s.subrange(0, j),
        ) by {
            assert(crate::token_type::is_prefix_of(s.subrange(0, j), ">="@));
        }
        assert(spec_classify(s) is Some);
        lemma_scan_symbol(s, 0);
    } else if s == "<<"@ {
        reveal_strlit("<<");
        assert(all_symbol_chars(s)) by {
            assert forall|i: int| 0 <= i < s.len() implies is_symbol_char(#[trigger] s[i]) by {
            }
        }
        assert forall|j: int| 1 <= j <= s.len() implies spec_could_match(
            #[trigger] s.subrange(0, j),
        ) by {
            assert(crate::token_type::is_prefix_of(s.subrange(0, j), "<<"@));
        }
        assert(spec_classify(s) is Some);
        lemma_scan_symbol(s, 0);
    } else if s == ">>"@ {
        reveal_strlit(">>");
        assert(all_symbol_chars(s)) by {
            assert forall|i: int| 0 <= i < s.len() implies is_symbol_char(#[trigger] s[i]) by {
            }
        }
        assert forall|j: int| 1 <= j <= s.len() implies spec_could_match(
            #[trigger] s.subrange(0, j),
        ) by {
            assert(crate::token_type::is_prefix_of(s.subrange(0, j), ">>"@));
        }
        assert(spec_classify(s) is Some);
        lemma_scan_symbol(s, 0);
    } else if s == "&^"@ {
        reveal_strlit("&^");
        assert(all_symbol_chars(s)) by {
            assert forall|i: int| 0 <= i < s.len() implies is_symbol_char(#[trigger] s[i]) by {
            }
        }
        assert forall|j: int| 1 <= j <= s.len() implies spec_could_match(
            #[trigger] s.subrange(0, j),
        ) by {
            assert(crate::token_type::is_prefix_of(s.subrange(0, j), "&^"@));
        }
        assert(spec_classify(s) is Some);
        lemma_scan_symbol(s, 0);
    } else if s == "+"@ {
        reveal_strlit("+");
        assert(all_symbol_chars(s)) by {
            assert forall|i: int| 0 <= i < s.len() implies is_symbol_char(#[trigger] s[i]) by {
            }
        }
        assert forall|j: int| 1 <= j <= s.len() implies spec_could_match(
            #[trigger] s.subrange(0, j),
        ) by {
            assert(crate::token_type::is_prefix_of(s.subrange(0, j), "+"@));
        }
        assert(spec_classify(s) is Some);
        lemma_scan_symbol(s, 0);
    } else if s == "-"@ {
        reveal_strlit("-");
        assert(all_symbol_chars(s)) by {
            assert forall|i: int| 0 <= i < s.len() implies is_symbol_char(#[trigger] s[i]) by {
            }
        }
        assert forall|j: int| 1 <= j <= s.len() implies spec_could_match(
            #[trigger] s.subrange(0, j),
        ) by {
            assert(crate::token_type::is_prefix_of(s.subrange(0, j), "-"@));
        }
        assert(spec_classify(s) is Some);
        lemma_scan_symbol(s, 0);
    } else if s == "*"@ {
        reveal_strlit("*");
        assert(all_symbol_chars(s)) by {
            assert forall|i: int| 0 <= i < s.len() implies is_symbol_char(#[trigger] s[i]) by {
            }
        }
        assert forall|j: int| 1 <= j <= s.len() implies spec_could_match(
            #[trigger] s.subrange(0, j),
        ) by {
            assert(crate::token_type::is_prefix_of(s.subrange(0, j), "*"@));
        }
        assert(spec_classify(s) is Some);
        lemma_scan_symbol(s, 0);
    } else if s == "/"@ {
        reveal_strlit("/");
        assert(all_symbol_chars(s)) by {
            assert forall|i: int| 0 <= i < s.len() implies is_symbol_char(#[trigger] s[i]) by {
            }
        }
        assert forall|j: int| 1 <= j <= s.len() implies spec_could_match(
            #[trigger] s.subrange(0, j),
        ) by {
            assert(crate::token_type::is_prefix_of(s.subrange(0, j), "/"@));
        }
        assert(spec_classify(s) is Some);
        lemma_scan_symbol(s, 0);
    } else if s == "%"@ {
        reveal_strlit("%");
        assert(all_symbol_chars(s)) by {
            assert forall|i: int| 0 <= i < s.len() implies is_symbol_char(#[trigger] s[i]) by {
            }
        }
        assert forall|j: int| 1 <= j <= s.len() implies spec_could_match(
            #[trigger] s.subrange(0, j),
        ) by {
            assert(crate::token_type::is_prefix_of(s.subrange(0, j), "%"@));
        }
        assert(spec_classify(s) is Some);
        lemma_scan_symbol(s, 0);
    } else if s == "&"@ {
        reveal_strlit("&");
        assert(all_symbol_chars(s)) by {
            assert forall|i: int| 0 <= i < s.len() implies is_symbol_char(#[trigger] s[i]) by {
            }
        }
        assert forall|j: int| 1 <= j <= s.len() implies spec_could_match(
            #[trigger] s.subrange(0, j),
        ) by {
            assert(crate::token_type::is_prefix_of(s.subrange(0, j), "&"@));
        }
        assert(spec_classify(s) is Some);
        lemma_scan_symbol(s, 0);
    } else if s == "|"@ {
        reveal_strlit("|");
        assert(all_symbol_chars(s)) by {
            assert forall|i: int| 0 <= i < s.len() implies is_symbol_char(#[trigger] s[i]) by {
            }
        }
        assert forall|j: int| 1 <= j <= s.len() implies spec_could_match(
            #[trigger] s.subrange(0, j),
        ) by {
            assert(crate::token_type::is_prefix_of(s.subrange(0, j), "|"@));
        }
        assert(spec_classify(s) is Some);
        lemma_scan_symbol(s, 0);
    } else if s == "^"@ {
        reveal_strlit("^");
        assert(all_symbol_chars(s)) by {
            assert forall|i: int| 0 <= i < s.len() implies is_symbol_char(#[trigger] s[i]) by {
            }
        }
        assert forall|j: int| 1 <= j <= s.len() implies spec_could_match(
            #[trigger] s.subrange(0, j),
        ) by {
            assert(crate::token_type::is_prefix_of(s.subrange(0, j), "^"@));
        }
        assert(spec_classify(s) is Some);
        lemma_scan_symbol(s, 0);
    } else if s == "!"@ {
        reveal_strlit("!");
        assert(all_symbol_chars(s)) by {
            assert forall|i: int| 0 <= i < s.len() implies is_symbol_char(#[trigger] s[i]) by {
            }
        }
        assert forall|j: int| 1 <= j <= s.len() implies spec_could_match(
            #[trigger] s.subrange(0, j),
        ) by {
            assert(crate::token_type::is_prefix_of(s.subrange(0, j), "!"@));
        }
        assert(spec_classify(s) is Some);
        lemma_scan_symbol(s, 0);
    } else if s == "="@ {
        reveal_strlit("=");
        assert(all_symbol_chars(s)) by {
            assert forall|i: int| 0 <= i < s.len() implies is_symbol_char(#[trigger] s[i]) by {
            }
        }
        assert forall|j: int| 1 <= j <= s.len() implies spec_could_match(
            #[trigger] s.subrange(0, j),
        ) by {
            assert(crate::token_type::is_prefix_of(s.subrange(0, j), "="@));
        }
        assert(spec_classify(s) is Some);
        lemma_scan_symbol(s, 0);
    } else if s == "."@ {
        reveal_strlit(".");
        assert(all_symbol_chars(s)) by {
            assert forall|i: int| 0 <= i < s.len() implies is_symbol_char(#[trigger] s[i]) by {
            }
        }
        assert forall|j: int| 1 <= j <= s.len() implies spec_could_match(
            #[trigger] s.subrange(0, j),
        ) by {
            assert(crate::token_type::is_prefix_of(s.subrange(0, j), "."@));
        }
        assert(spec_classify(s) is Some);
        lemma_scan_symbol(s, 0);
    } else if s == ":"@ {
        reveal_strlit(":");
        assert(all_symbol_chars(s)) by {
            assert forall|i: int| 0 <= i < s.len() implies is_symbol_char(#[trigger] s[i]) by {
            }
        }
        assert forall|j: int| 1 <= j <= s.len() implies spec_could_match(
            #[trigger] s.subrange(0, j),
        ) by {
            assert(crate::token_type::is_prefix_of(s.subrange(0, j), ":"@));
        }
        assert(spec_classify(s) is Some);
        lemma_scan_symbol(s, 0);
    } else if s == ","@ {
        reveal_strlit(",");
        assert(all_symbol_chars(s)) by {
            assert forall|i: int| 0 <= i < s.len() implies is_symbol_char(#[trigger] s[i]) by {
            }
        }
        assert forall|j: int| 1 <= j <= s.len() implies spec_could_match(
            #[trigger] s.subrange(0, j),
        ) by {
            assert(crate::token_type::is_prefix_of(s.subrange(0, j), ","@));
        }
        assert(spec_classify(s) is Some);
        lemma_scan_symbol(s, 0);
    } else if s == ";"@ {
        reveal_strlit(";");
        assert(all_symbol_chars(s)) by {
            assert forall|i: int| 0 <= i < s.len() implies is_symbol_char(#[trigger] s[i]) by {
            }
        }
        assert forall|j: int| 1 <= j <= s.len() implies spec_could_match(
            #[trigger] s.subrange(0, j),
        ) by {
            assert(crate::token_type::is_prefix_of(s.subrange(0, j), ";"@));
        }
        assert(spec_classify(s) is Some);
        lemma_scan_symbol(s, 0);
    } else if s == "("@ {
        reveal_strlit("(");
        assert(all_symbol_chars(s)) by {
            assert forall|i: int| 0 <= i < s.len() implies is_symbol_char(#[trigger] s[i]) by {
            }
        }
        assert forall|j: int| 1 <= j <= s.len() implies spec_could_match(
            #[trigger] s.subrange(0, j),
        ) by {
            assert(crate::token_type::is_prefix_of(s.subrange(0, j), "("@));
        }
        assert(spec_classify(s) is Some);
        lemma_scan_symbol(s, 0);
    } else if s == ")"@ {
        reveal_strlit(")");
        assert(all_symbol_chars(s)) by {
            assert forall|i: int| 0 <= i < s.len() implies is_symbol_char(#[trigger] s[i]) by {
            }
        }
        assert forall|j: int| 1 <= j <= s.len() implies spec_could_match(
            #[trigger] s.subrange(0, j),
        ) by {
            assert(crate::token_type::is_prefix_of(s.subrange(0, j), ")"@));
        }
        assert(spec_classify(s) is Some);
        lemma_scan_symbol(s, 0);
    } else if s == "["@ {
        reveal_strlit("[");
        assert(all_symbol_chars(s)) by {
            assert forall|i: int| 0 <= i < s.len() implies is_symbol_char(#[trigger] s[i]) by {
            }
        }
        assert forall|j: int| 1 <= j <= s.len() implies spec_could_match(
            #[trigger] s.subrange(0, j),
        ) by {
            assert(crate::token_type::is_prefix_of(s.subrange(0, j), "["@));
        }
        assert(spec_classify(s) is Some);
        lemma_scan_symbol(s, 0);
    } else if s == "]"@ {
        reveal_strlit("]");
        assert(all_symbol_chars(s)) by {
            assert forall|i: int| 0 <= i < s.len() implies is_symbol_char(#[trigger] s[i]) by {
            }
        }
        assert forall|j: int| 1 <= j <= s.len() implies spec_could_match(
            #[trigger] s.subrange(0, j),
        ) by {
            assert(crate::token_type::is_prefix_of(s.subrange(0, j), "]"@));
        }
        assert(spec_classify(s) is Some);
        lemma_scan_symbol(s, 0);
    } else if s == "{"@ {
        reveal_strlit("{");
        assert(all_symbol_chars(s)) by {
            assert forall|i: int| 0 <= i < s.len() implies is_symbol_char(#[trigger] s[i]) by {
            }
        }
        assert forall|j: int| 1 <= j <= s.len() implies spec_could_match(
            #[trigger] s.subrange(0, j),
        ) by {
            assert(crate::token_type::is_prefix_of(s.subrange(0, j), "{"@));
        }
        assert(spec_classify(s) is Some);
        lemma_scan_symbol(s, 0);
    } else if s == "}"@ {
        reveal_strlit("}");
        assert(all_symbol_chars(s)) by {
            assert forall|i: int| 0 <= i < s.len() implies is_symbol_char(#[trigger] s[i]) by {
            }
        }
        assert forall|j: int| 1 <= j <= s.len() implies spec_could_match(
            #[trigger] s.subrange(0, j),
        ) by {
            assert(crate::token_type::is_prefix_of(s.subrange(0, j), "}"@));
        }
        assert(spec_classify(s) is Some);
        lemma_scan_symbol(s, 0);
    } else if s == "`"@ {
        reveal_strlit("`");
        assert(s.subrange(0, 1) =~= s);
        assert(!crate::token_type::is_space_char(s[0]));
        assert(!is_symbol_char(s[0]));
        assert(spec_classify(s) is Some);
        assert(spec_tokenize(s, 0, 1) matches ScanDecision::Emit(t));
    } else if s == "$"@ {
        reveal_strlit("$");
        assert(s.subrange(0, 1) =~= s);
        assert(!crate::token_type::is_space_char(s[0]));
        assert(!is_symbol_char(s[0]));
        assert(spec_classify(s) is Some);
        assert(spec_tokenize(s, 0, 1) matches ScanDecision::Emit(t));
    }
    assert(!crate::token_type::is_space_char(s[0]));
    assert(!crate::token_type::all_whitespace(s));
    assert(crate::token_type::keyword_of(s) is None) by {
        reveal_strlit("break");
        reveal_strlit("case");
        reveal_strlit("chan");
        reveal_strlit("const");
        reveal_strlit("continue");
        reveal_strlit("default");
        reveal_strlit("defer");
        reveal_strlit("else");
        reveal_strlit("fallthrough");
        reveal_strlit("for");
        reveal_strlit("go");
        reveal_strlit("goto");
        reveal_strlit("if");
        reveal_strlit("import");
        reveal_strlit("interface");
        reveal_strlit("map");
        reveal_strlit("package");
        reveal_strlit("range");
        reveal_strlit("return");
        reveal_strlit("select");
        reveal_strlit("struct");
        reveal_strlit("switch");
        reveal_strlit("type");
        reveal_strlit("var");
        reveal_strlit("func");
    }
}

} // verus!
