//! Token classification: the closed sets of keywords, operators and
//! punctuation, structural checks for literals and identifiers, and the
//! longest-match helper that decides whether a prefix could still grow into a
//! valid token.

use vstd::prelude::*;
use vstd::string::*;

verus! {

/// Binary and unary operators, each with a numeric precedence.
#[derive(Debug, PartialEq, Eq, Structural, Copy, Clone)]
pub enum Operator {
    Plus,
    Minus,
    Star,
    Slash,
    Percent,
    Ampersand,
    Pipe,
    Caret,
    LessLess,
    GreaterGreater,
    AmpersandCaret,
    AndAnd,
    PipePipe,
    EqualEqual,
    BangEqual,
    Less,
    LessEqual,
    Greater,
    GreaterEqual,
}

/// Operator precedence levels, as in the Go specification: `||` binds loosest,
/// multiplicative and shift operators bind tightest.
pub open spec fn spec_operator_precedence(op: Operator) -> u8 {
    match op {
        Operator::PipePipe => 1,
        Operator::AndAnd => 2,
        Operator::EqualEqual
        | Operator::BangEqual
        | Operator::Less
        | Operator::LessEqual
        | Operator::Greater
        | Operator::GreaterEqual => 3,
        Operator::Plus | Operator::Minus | Operator::Pipe | Operator::Caret => 4,
        Operator::Star
        | Operator::Slash
        | Operator::Percent
        | Operator::LessLess
        | Operator::GreaterGreater
        | Operator::Ampersand
        | Operator::AmpersandCaret => 5,
    }
}

impl Operator {
    pub fn precedence(&self) -> (r: u8)
        ensures
            r == spec_operator_precedence(*self),
    {
        match self {
            Operator::PipePipe => 1,
            Operator::AndAnd => 2,
            Operator::EqualEqual
            | Operator::BangEqual
            | Operator::Less
            | Operator::LessEqual
            | Operator::Greater
            | Operator::GreaterEqual => 3,
            Operator::Plus | Operator::Minus | Operator::Pipe | Operator::Caret => 4,
            Operator::Star
            | Operator::Slash
            | Operator::Percent
            | Operator::LessLess
            | Operator::GreaterGreater
            | Operator::Ampersand
            | Operator::AmpersandCaret => 5,
        }
    }
}

/// The 25 reserved words of the modeled Go subset.
#[derive(Debug, PartialEq, Eq, Structural, Copy, Clone)]
pub enum Keyword {
    Break,
    Case,
    Chan,
    Const,
    Continue,
    Default,
    Defer,
    Else,
    Fallthrough,
    For,
    Func,
    Go,
    Goto,
    If,
    Import,
    Interface,
    MapKw,
    Package,
    Range,
    Return,
    Select,
    Struct,
    Switch,
    Type,
    Var,
}

/// The classification of a lexeme.
#[derive(Debug, PartialEq, Eq, Structural, Copy, Clone)]
pub enum TokenKind {
    SingleLineComment,
    StartBlockComment,
    EndBlockComment,
    EOF,
    BeforeStart,
    Identifier,
    IntegerLiteral,
    FloatLiteral,
    RuneLiteral,
    StringLiteral,
    Keyword(Keyword),
    Operator(Operator),
    LessMinus,
    MinusMinus,
    PlusPlus,
    Equal,
    ColonEqual,
    PlusEqual,
    MinusEqual,
    StarEqual,
    SlashEqual,
    PercentEqual,
    AmpersandEqual,
    PipeEqual,
    CaretEqual,
    LessLessEqual,
    GreaterGreaterEqual,
    AmpersandCaretEqual,
    Bang,
    DotDotDot,
    Dot,
    Colon,
    Comma,
    Semicolon,
    LeftParen,
    RightParen,
    LeftBracket,
    RightBracket,
    LeftBrace,
    RightBrace,
    Backtick,
    DollarSign,
    Newline,
}

/// The whitespace characters the scanner recognizes: space, tab, carriage
/// return and line feed.
pub open spec fn is_space_char(c: char) -> bool {
    c == ' ' || c == '\t' || c == '\r' || c == '\n'
}

pub open spec fn all_whitespace(s: Seq<char>) -> bool {
    forall|i: int| 0 <= i < s.len() ==> is_space_char(#[trigger] s[i])
}

/// An ASCII decimal digit.
pub open spec fn is_digit_char(c: char) -> bool {
    48 <= c as u32 && c as u32 <= 57
}

/// An ASCII letter.
pub open spec fn is_letter_char(c: char) -> bool {
    (65 <= c as u32 && c as u32 <= 90) || (97 <= c as u32 && c as u32 <= 122)
}

/// A character that may appear in an identifier: letter, digit or underscore.
pub open spec fn is_word_char(c: char) -> bool {
    is_letter_char(c) || is_digit_char(c) || c == '_'
}

/// A non-empty all-digit lexeme.
pub open spec fn is_integer_literal_seq(s: Seq<char>) -> bool {
    s.len() > 0 && forall|i: int| 0 <= i < s.len() ==> is_digit_char(#[trigger] s[i])
}

/// How many `.` characters the sequence holds.
pub open spec fn dot_count(s: Seq<char>) -> nat
    decreases s.len(),
{
    if s.len() == 0 {
        0
    } else {
        dot_count(s.drop_last()) + if s.last() == '.' { 1nat } else { 0nat }
    }
}

pub open spec fn all_digit_or_dot(s: Seq<char>) -> bool {
    forall|i: int| 0 <= i < s.len() ==> is_digit_char(#[trigger] s[i]) || s[i] == '.'
}

/// Digits around exactly one interior dot, as in `123.456`.
pub open spec fn is_float_literal_seq(s: Seq<char>) -> bool {
    s.len() > 0 && all_digit_or_dot(s) && dot_count(s) == 1 && s[0] != '.' && s[s.len() - 1]
        != '.'
}

/// A letter-or-underscore start followed by word characters.
pub open spec fn is_identifier_seq(s: Seq<char>) -> bool {
    s.len() > 0 && (is_letter_char(s[0]) || s[0] == '_') && forall|i: int|
        0 <= i < s.len() ==> is_word_char(#[trigger] s[i])
}

/// Every backslash in a string body must be followed by another character.
pub open spec fn valid_string_content(s: Seq<char>) -> bool
    decreases s.len(),
{
    if s.len() == 0 {
        true
    } else if s[0] == '\\' {
        s.len() >= 2 && valid_string_content(s.skip(2))
    } else {
        valid_string_content(s.skip(1))
    }
}

/// A lexeme wrapped in double quotes whose body survives escape pairing.
pub open spec fn is_string_literal_seq(s: Seq<char>) -> bool {
    s.len() >= 2 && s[0] == '"' && s[s.len() - 1] == '"' && valid_string_content(
        s.subrange(1, s.len() - 1),
    )
}

/// A rune body is one plain character or exactly one escape pair.
pub open spec fn valid_rune_content(s: Seq<char>) -> bool {
    if s.len() == 0 {
        false
    } else if s[0] == '\\' {
        s.len() == 2
    } else {
        s.len() == 1
    }
}

/// A lexeme wrapped in single quotes holding a valid rune body.
pub open spec fn is_rune_literal_seq(s: Seq<char>) -> bool {
    s.len() >= 3 && s[0] == '\'' && s[s.len() - 1] == '\'' && valid_rune_content(
        s.subrange(1, s.len() - 1),
    )
}

/// Exact match against the 25 reserved words.
pub open spec fn keyword_of(s: Seq<char>) -> Option<Keyword> {
    if s == "break"@ {
        Some(Keyword::Break)
    } else if s == "case"@ {
        Some(Keyword::Case)
    } else if s == "chan"@ {
        Some(Keyword::Chan)
    } else if s == "const"@ {
        Some(Keyword::Const)
    } else if s == "continue"@ {
        Some(Keyword::Continue)
    } else if s == "default"@ {
        Some(Keyword::Default)
    } else if s == "defer"@ {
        Some(Keyword::Defer)
    } else if s == "else"@ {
        Some(Keyword::Else)
    } else if s == "fallthrough"@ {
        Some(Keyword::Fallthrough)
    } else if s == "for"@ {
        Some(Keyword::For)
    } else if s == "func"@ {
        Some(Keyword::Func)
    } else if s == "go"@ {
        Some(Keyword::Go)
    } else if s == "goto"@ {
        Some(Keyword::Goto)
    } else if s == "if"@ {
        Some(Keyword::If)
    } else if s == "import"@ {
        Some(Keyword::Import)
    } else if s == "interface"@ {
        Some(Keyword::Interface)
    } else if s == "map"@ {
        Some(Keyword::MapKw)
    } else if s == "package"@ {
        Some(Keyword::Package)
    } else if s == "range"@ {
        Some(Keyword::Range)
    } else if s == "return"@ {
        Some(Keyword::Return)
    } else if s == "select"@ {
        Some(Keyword::Select)
    } else if s == "struct"@ {
        Some(Keyword::Struct)
    } else if s == "switch"@ {
        Some(Keyword::Switch)
    } else if s == "type"@ {
        Some(Keyword::Type)
    } else if s == "var"@ {
        Some(Keyword::Var)
    } else {
        None
    }
}

/// Exact match against the fixed operator and punctuation lexemes.
pub open spec fn fixed_of(s: Seq<char>) -> Option<TokenKind> {
    if s == "..."@ {
        Some(TokenKind::DotDotDot)
    } else if s == "<<="@ {
        Some(TokenKind::LessLessEqual)
    } else if s == ">>="@ {
        Some(TokenKind::GreaterGreaterEqual)
    } else if s == "&^="@ {
        Some(TokenKind::AmpersandCaretEqual)
    } else if s == "=="@ {
        Some(TokenKind::Operator(Operator::EqualEqual))
    } else if s == "!="@ {
        Some(TokenKind::Operator(Operator::BangEqual))
    } else if s == "&&"@ {
        Some(TokenKind::Operator(Operator::AndAnd))
    } else if s == "||"@ {
        Some(TokenKind::Operator(Operator::PipePipe))
    } else if s == "+="@ {
        Some(TokenKind::PlusEqual)
    } else if s == "-="@ {
        Some(TokenKind::MinusEqual)
    } else if s == "*="@ {
        Some(TokenKind::StarEqual)
    } else if s == "/="@ {
        Some(TokenKind::SlashEqual)
    } else if s == "%="@ {
        Some(TokenKind::PercentEqual)
    } else if s == "&="@ {
        Some(TokenKind::AmpersandEqual)
    } else if s == "|="@ {
        Some(TokenKind::PipeEqual)
    } else if s == "^="@ {
        Some(TokenKind::CaretEqual)
    } else if s == "<-"@ {
        Some(TokenKind::LessMinus)
    } else if s == "++"@ {
        Some(TokenKind::PlusPlus)
    } else if s == "--"@ {
        Some(TokenKind::MinusMinus)
    } else if s == ":="@ {
        Some(TokenKind::ColonEqual)
    } else if s == "<"@ {
        Some(TokenKind::Operator(Operator::Less))
    } else if s == "<="@ {
        Some(TokenKind::Operator(Operator::LessEqual))
    } else if s == ">"@ {
        Some(TokenKind::Operator(Operator::Greater))
    } else if s == ">="@ {
        Some(TokenKind::Operator(Operator::GreaterEqual))
    } else if s == "<<"@ {
        Some(TokenKind::Operator(Operator::LessLess))
    } else if s == ">>"@ {
        Some(TokenKind::Operator(Operator::GreaterGreater))
    } else if s == "&^"@ {
        Some(TokenKind::Operator(Operator::AmpersandCaret))
    } else if s == "+"@ {
        Some(TokenKind::Operator(Operator::Plus))
    } else if s == "-"@ {
        Some(TokenKind::Operator(Operator::Minus))
    } else if s == "*"@ {
        Some(TokenKind::Operator(Operator::Star))
    } else if s == "/"@ {
        Some(TokenKind::Operator(Operator::Slash))
    } else if s == "%"@ {
        Some(TokenKind::Operator(Operator::Percent))
    } else if s == "&"@ {
        Some(TokenKind::Operator(Operator::Ampersand))
    } else if s == "|"@ {
        Some(TokenKind::Operator(Operator::Pipe))
    } else if s == "^"@ {
        Some(TokenKind::Operator(Operator::Caret))
    } else if s == "!"@ {
        Some(TokenKind::Bang)
    } else if s == "="@ {
        Some(TokenKind::Equal)
    } else if s == "."@ {
        Some(TokenKind::Dot)
    } else if s == ":"@ {
        Some(TokenKind::Colon)
    } else if s == ","@ {
        Some(TokenKind::Comma)
    } else if s == ";"@ {
        Some(TokenKind::Semicolon)
    } else if s == "("@ {
        Some(TokenKind::LeftParen)
    } else if s == ")"@ {
        Some(TokenKind::RightParen)
    } else if s == "["@ {
        Some(TokenKind::LeftBracket)
    } else if s == "]"@ {
        Some(TokenKind::RightBracket)
    } else if s == "{"@ {
        Some(TokenKind::LeftBrace)
    } else if s == "}"@ {
        Some(TokenKind::RightBrace)
    } else if s == "`"@ {
        Some(TokenKind::Backtick)
    } else if s == "$"@ {
        Some(TokenKind::DollarSign)
    } else {
        None
    }
}

/// The full classification of a lexeme: fixed table first, then the
/// structural literal checks, in the order the tokenizer relies on.
pub open spec fn spec_classify(s: Seq<char>) -> Option<TokenKind> {
    if s.len() == 0 || all_whitespace(s) {
        None
    } else if keyword_of(s) is Some {
        Some(TokenKind::Keyword(keyword_of(s)->Some_0))
    } else if fixed_of(s) is Some {
        fixed_of(s)
    } else if is_integer_literal_seq(s) {
        Some(TokenKind::IntegerLiteral)
    } else if is_float_literal_seq(s) {
        Some(TokenKind::FloatLiteral)
    } else if is_identifier_seq(s) {
        Some(TokenKind::Identifier)
    } else if is_string_literal_seq(s) {
        Some(TokenKind::StringLiteral)
    } else if is_rune_literal_seq(s) {
        Some(TokenKind::RuneLiteral)
    } else {
        None
    }
}

pub open spec fn is_prefix_of(s: Seq<char>, t: Seq<char>) -> bool {
    s.len() <= t.len() && s == t.subrange(0, s.len() as int)
}

/// Whether the lexeme is a prefix of one of the fixed keyword strings.
pub open spec fn keyword_prefix(s: Seq<char>) -> bool {
    ||| is_prefix_of(s, "break"@)
    ||| is_prefix_of(s, "case"@)
    ||| is_prefix_of(s, "chan"@)
    ||| is_prefix_of(s, "const"@)
    ||| is_prefix_of(s, "continue"@)
    ||| is_prefix_of(s, "default"@)
    ||| is_prefix_of(s, "defer"@)
    ||| is_prefix_of(s, "else"@)
    ||| is_prefix_of(s, "fallthrough"@)
    ||| is_prefix_of(s, "for"@)
    ||| is_prefix_of(s, "func"@)
    ||| is_prefix_of(s, "go"@)
    ||| is_prefix_of(s, "goto"@)
    ||| is_prefix_of(s, "if"@)
    ||| is_prefix_of(s, "import"@)
    ||| is_prefix_of(s, "interface"@)
    ||| is_prefix_of(s, "map"@)
    ||| is_prefix_of(s, "package"@)
    ||| is_prefix_of(s, "range"@)
    ||| is_prefix_of(s, "return"@)
    ||| is_prefix_of(s, "select"@)
    ||| is_prefix_of(s, "struct"@)
    ||| is_prefix_of(s, "switch"@)
    ||| is_prefix_of(s, "type"@)
    ||| is_prefix_of(s, "var"@)
}

/// Whether the lexeme is a prefix of one of the fixed operator or
/// punctuation strings of the longest-match table.
pub open spec fn operator_prefix(s: Seq<char>) -> bool {
    ||| is_prefix_of(s, "+"@)
    ||| is_prefix_of(s, "-"@)
    ||| is_prefix_of(s, "*"@)
    ||| is_prefix_of(s, "/"@)
    ||| is_prefix_of(s, "%"@)
    ||| is_prefix_of(s, "&"@)
    ||| is_prefix_of(s, "|"@)
    ||| is_prefix_of(s, "^"@)
    ||| is_prefix_of(s, "<<"@)
    ||| is_prefix_of(s, ">>"@)
    ||| is_prefix_of(s, "&^"@)
    ||| is_prefix_of(s, "+="@)
    ||| is_prefix_of(s, "-="@)
    ||| is_prefix_of(s, "*="@)
    ||| is_prefix_of(s, "/="@)
    ||| is_prefix_of(s, "%="@)
    ||| is_prefix_of(s, "&="@)
    ||| is_prefix_of(s, "|="@)
    ||| is_prefix_of(s, "^="@)
    ||| is_prefix_of(s, "<<="@)
    ||| is_prefix_of(s, ">>="@)
    ||| is_prefix_of(s, "&^="@)
    ||| is_prefix_of(s, "&&"@)
    ||| is_prefix_of(s, "||"@)
    ||| is_prefix_of(s, "<-"@)
    ||| is_prefix_of(s, "++"@)
    ||| is_prefix_of(s, "--"@)
    ||| is_prefix_of(s, "=="@)
    ||| is_prefix_of(s, "!="@)
    ||| is_prefix_of(s, "<"@)
    ||| is_prefix_of(s, "<="@)
    ||| is_prefix_of(s, ">"@)
    ||| is_prefix_of(s, ">="@)
    ||| is_prefix_of(s, "="@)
    ||| is_prefix_of(s, ":="@)
    ||| is_prefix_of(s, "!"@)
    ||| is_prefix_of(s, "..."@)
    ||| is_prefix_of(s, "."@)
    ||| is_prefix_of(s, ":"@)
    ||| is_prefix_of(s, ","@)
    ||| is_prefix_of(s, ";"@)
    ||| is_prefix_of(s, "("@)
    ||| is_prefix_of(s, ")"@)
    ||| is_prefix_of(s, "["@)
    ||| is_prefix_of(s, "]"@)
    ||| is_prefix_of(s, "{"@)
    ||| is_prefix_of(s, "}"@)
}

/// A partial float shape: does not start with a dot, holds at most one dot,
/// and is otherwise all digits, so some longer float could complete it.
pub open spec fn partial_float(s: Seq<char>) -> bool {
    s.len() > 0 && s[0] != '.' && dot_count(s) <= 1 && all_digit_or_dot(s)
}

/// Whether some valid token, identifier or number literal starts with this
/// exact prefix, so the tokenizer should keep accumulating characters.
pub open spec fn spec_could_match(s: Seq<char>) -> bool {
    ||| keyword_prefix(s)
    ||| operator_prefix(s)
    ||| is_identifier_seq(s)
    ||| is_integer_literal_seq(s)
    ||| partial_float(s)
}

/// Character-by-character equality of two string slices.
fn str_eq(a: &str, b: &str) -> (r: bool)
    ensures
        r == (a@ == b@),
{
    let n = a.unicode_len();
    if n != b.unicode_len() {
        proof {
            if a@ == b@ {
                assert(a@.len() == b@.len());
            }
        }
        return false;
    }
    let mut i: usize = 0;
    while i < n
        invariant
            n == a@.len(),
            n == b@.len(),
            i <= n,
            forall|j: int| 0 <= j < i ==> a@[j] == b@[j],
        decreases n - i,
    {
        if a.get_char(i) != b.get_char(i) {
            proof {
                if a@ == b@ {
                    assert(a@[i as int] == b@[i as int]);
                }
            }
            return false;
        }
        i += 1;
    }
    proof {
        assert(a@ =~= b@);
    }
    true
}

/// Whether `a` is a prefix of `b`, character by character.
fn str_prefix_of(a: &str, b: &str) -> (r: bool)
    ensures
        r == is_prefix_of(a@, b@),
{
    let n = a.unicode_len();
    if n > b.unicode_len() {
        return false;
    }
    let mut i: usize = 0;
    while i < n
        invariant
            n == a@.len(),
            n <= b@.len(),
            i <= n,
            forall|j: int| 0 <= j < i ==> a@[j] == b@[j],
        decreases n - i,
    {
        if a.get_char(i) != b.get_char(i) {
            proof {
                if is_prefix_of(a@, b@) {
                    assert(a@[i as int] == b@.subrange(0, a@.len() as int)[i as int]);
                }
            }
            return false;
        }
        i += 1;
    }
    proof {
        assert(a@ =~= b@.subrange(0, a@.len() as int));
    }
    true
}

fn char_is_space(c: char) -> (r: bool)
    ensures
        r == is_space_char(c),
{
    c == ' ' || c == '\t' || c == '\r' || c == '\n'
}

fn char_is_digit(c: char) -> (r: bool)
    ensures
        r == is_digit_char(c),
{
    let u = c as u32;
    48 <= u && u <= 57
}

fn char_is_letter(c: char) -> (r: bool)
    ensures
        r == is_letter_char(c),
{
    let u = c as u32;
    (65 <= u && u <= 90) || (97 <= u && u <= 122)
}

fn char_is_word(c: char) -> (r: bool)
    ensures
        r == is_word_char(c),
{
    char_is_letter(c) || char_is_digit(c) || c == '_'
}

fn check_all_whitespace(value: &str) -> (r: bool)
    ensures
        r == all_whitespace(value@),
{
    let n = value.unicode_len();
    let mut i: usize = 0;
    while i < n
        invariant
            n == value@.len(),
            i <= n,
            forall|j: int| 0 <= j < i ==> is_space_char(#[trigger] value@[j]),
        decreases n - i,
    {
        if !char_is_space(value.get_char(i)) {
            return false;
        }
        i += 1;
    }
    true
}

fn check_integer(value: &str) -> (r: bool)
    ensures
        r == is_integer_literal_seq(value@),
{
    let n = value.unicode_len();
    if n == 0 {
        return false;
    }
    let mut i: usize = 0;
    while i < n
        invariant
            n == value@.len(),
            i <= n,
            forall|j: int| 0 <= j < i ==> is_digit_char(#[trigger] value@[j]),
        decreases n - i,
    {
        if !char_is_digit(value.get_char(i)) {
            return false;
        }
        i += 1;
    }
    true
}

proof fn lemma_dot_count_step(s: Seq<char>, i: int)
    requires
        0 <= i < s.len(),
    ensures
        dot_count(s.subrange(0, i + 1)) == dot_count(s.subrange(0, i)) + if s[i] == '.' {
            1nat
        } else {
            0nat
        },
{
    let pre = s.subrange(0, i + 1);
    assert(pre.drop_last() =~= s.subrange(0, i));
    assert(pre.last() == s[i]);
}

/// Counts the dots in the slice and checks that every character is a digit or
/// a dot; returns `None` if some character is neither.
fn scan_digits_dots(value: &str) -> (r: Option<usize>)
    ensures
        match r {
            Some(k) => all_digit_or_dot(value@) && k == dot_count(value@),
            None => !all_digit_or_dot(value@),
        },
{
    let n = value.unicode_len();
    let mut i: usize = 0;
    let mut dots: usize = 0;
    while i < n
        invariant
            n == value@.len(),
            i <= n,
            dots <= i,
            forall|j: int| 0 <= j < i ==> is_digit_char(#[trigger] value@[j]) || value@[j] == '.',
            dots == dot_count(value@.subrange(0, i as int)),
        decreases n - i,
    {
        let c = value.get_char(i);
        proof {
            lemma_dot_count_step(value@, i as int);
        }
        if c == '.' {
            dots += 1;
        } else if !char_is_digit(c) {
            return None;
        }
        i += 1;
    }
    proof {
        assert(value@.subrange(0, n as int) =~= value@);
    }
    Some(dots)
}

fn check_float(value: &str) -> (r: bool)
    ensures
        r == is_float_literal_seq(value@),
{
    let n = value.unicode_len();
    if n == 0 {
        return false;
    }
    if value.get_char(0) == '.' {
        return false;
    }
    if value.get_char(n - 1) == '.' {
        return false;
    }
    match scan_digits_dots(value) {
        Some(dots) => dots == 1,
        None => false,
    }
}

fn check_identifier(value: &str) -> (r: bool)
    ensures
        r == is_identifier_seq(value@),
{
    let n = value.unicode_len();
    if n == 0 {
        return false;
    }
    let first = value.get_char(0);
    if !(char_is_letter(first) || first == '_') {
        return false;
    }
    let mut i: usize = 0;
    while i < n
        invariant
            n == value@.len(),
            i <= n,
            is_letter_char(value@[0]) || value@[0] == '_',
            forall|j: int| 0 <= j < i ==> is_word_char(#[trigger] value@[j]),
        decreases n - i,
    {
        if !char_is_word(value.get_char(i)) {
            return false;
        }
        i += 1;
    }
    true
}

/// Checks the escape discipline of a string body: a backslash always consumes
/// the following character.
fn check_string_content(value: &str, start: usize, end: usize) -> (r: bool)
    requires
        start <= end <= value@.len(),
    ensures
        r == valid_string_content(value@.subrange(start as int, end as int)),
{
    let mut i: usize = start;
    while i < end
        invariant
            start <= i <= end <= value@.len(),
            valid_string_content(value@.subrange(start as int, end as int))
                == valid_string_content(value@.subrange(i as int, end as int)),
        decreases end - i,
    {
        let c = value.get_char(i);
        let ghost rest = value@.subrange(i as int, end as int);
        if c == '\\' {
            if i + 1 >= end {
                proof {
                    assert(rest[0] == '\\');
                    assert(rest.len() < 2);
                }
                return false;
            }
            proof {
                assert(rest[0] == '\\');
                assert(rest.skip(2) =~= value@.subrange(i + 2, end as int));
            }
            i += 2;
        } else {
            proof {
                assert(rest[0] != '\\');
                assert(rest.skip(1) =~= value@.subrange(i + 1, end as int));
            }
            i += 1;
        }
    }
    proof {
        assert(value@.subrange(i as int, end as int).len() == 0);
    }
    true
}

fn check_string_literal(value: &str) -> (r: bool)
    ensures
        r == is_string_literal_seq(value@),
{
    let n = value.unicode_len();
    if n < 2 {
        return false;
    }
    if value.get_char(0) != '"' || value.get_char(n - 1) != '"' {
        return false;
    }
    check_string_content(value, 1, n - 1)
}

fn check_rune_literal(value: &str) -> (r: bool)
    ensures
        r == is_rune_literal_seq(value@),
{
    let n = value.unicode_len();
    if n < 3 {
        return false;
    }
    if value.get_char(0) != '\'' || value.get_char(n - 1) != '\'' {
        return false;
    }
    let ghost body = value@.subrange(1, n - 1);
    if value.get_char(1) == '\\' {
        proof {
            assert(body[0] == '\\');
        }
        n == 4
    } else {
        proof {
            assert(body[0] != '\\');
        }
        n == 3
    }
}

fn keyword_lookup(value: &str) -> (r: Option<Keyword>)
    ensures
        r == keyword_of(value@),
{
    if str_eq(value, "break") {
        Some(Keyword::Break)
    } else if str_eq(value, "case") {
        Some(Keyword::Case)
    } else if str_eq(value, "chan") {
        Some(Keyword::Chan)
    } else if str_eq(value, "const") {
        Some(Keyword::Const)
    } else if str_eq(value, "continue") {
        Some(Keyword::Continue)
    } else if str_eq(value, "default") {
        Some(Keyword::Default)
    } else if str_eq(value, "defer") {
        Some(Keyword::Defer)
    } else if str_eq(value, "else") {
        Some(Keyword::Else)
    } else if str_eq(value, "fallthrough") {
        Some(Keyword::Fallthrough)
    } else if str_eq(value, "for") {
        Some(Keyword::For)
    } else if str_eq(value, "func") {
        Some(Keyword::Func)
    } else if str_eq(value, "go") {
        Some(Keyword::Go)
    } else if str_eq(value, "goto") {
        Some(Keyword::Goto)
    } else if str_eq(value, "if") {
        Some(Keyword::If)
    } else if str_eq(value, "import") {
        Some(Keyword::Import)
    } else if str_eq(value, "interface") {
        Some(Keyword::Interface)
    } else if str_eq(value, "map") {
        Some(Keyword::MapKw)
    } else if str_eq(value, "package") {
        Some(Keyword::Package)
    } else if str_eq(value, "range") {
        Some(Keyword::Range)
    } else if str_eq(value, "return") {
        Some(Keyword::Return)
    } else if str_eq(value, "select") {
        Some(Keyword::Select)
    } else if str_eq(value, "struct") {
        Some(Keyword::Struct)
    } else if str_eq(value, "switch") {
        Some(Keyword::Switch)
    } else if str_eq(value, "type") {
        Some(Keyword::Type)
    } else if str_eq(value, "var") {
        Some(Keyword::Var)
    } else {
        None
    }
}

fn fixed_lookup(value: &str) -> (r: Option<TokenKind>)
    ensures
        r == fixed_of(value@),
{
    if str_eq(value, "...") {
        Some(TokenKind::DotDotDot)
    } else if str_eq(value, "<<=") {
        Some(TokenKind::LessLessEqual)
    } else if str_eq(value, ">>=") {
        Some(TokenKind::GreaterGreaterEqual)
    } else if str_eq(value, "&^=") {
        Some(TokenKind::AmpersandCaretEqual)
    } else if str_eq(value, "==") {
        Some(TokenKind::Operator(Operator::EqualEqual))
    } else if str_eq(value, "!=") {
        Some(TokenKind::Operator(Operator::BangEqual))
    } else if str_eq(value, "&&") {
        Some(TokenKind::Operator(Operator::AndAnd))
    } else if str_eq(value, "||") {
        Some(TokenKind::Operator(Operator::PipePipe))
    } else if str_eq(value, "+=") {
        Some(TokenKind::PlusEqual)
    } else if str_eq(value, "-=") {
        Some(TokenKind::MinusEqual)
    } else if str_eq(value, "*=") {
        Some(TokenKind::StarEqual)
    } else if str_eq(value, "/=") {
        Some(TokenKind::SlashEqual)
    } else if str_eq(value, "%=") {
        Some(TokenKind::PercentEqual)
    } else if str_eq(value, "&=") {
        Some(TokenKind::AmpersandEqual)
    } else if str_eq(value, "|=") {
        Some(TokenKind::PipeEqual)
    } else if str_eq(value, "^=") {
        Some(TokenKind::CaretEqual)
    } else if str_eq(value, "<-") {
        Some(TokenKind::LessMinus)
    } else if str_eq(value, "++") {
        Some(TokenKind::PlusPlus)
    } else if str_eq(value, "--") {
        Some(TokenKind::MinusMinus)
    } else if str_eq(value, ":=") {
        Some(TokenKind::ColonEqual)
    } else if str_eq(value, "<") {
        Some(TokenKind::Operator(Operator::Less))
    } else if str_eq(value, "<=") {
        Some(TokenKind::Operator(Operator::LessEqual))
    } else if str_eq(value, ">") {
        Some(TokenKind::Operator(Operator::Greater))
    } else if str_eq(value, ">=") {
        Some(TokenKind::Operator(Operator::GreaterEqual))
    } else if str_eq(value, "<<") {
        Some(TokenKind::Operator(Operator::LessLess))
    } else if str_eq(value, ">>") {
        Some(TokenKind::Operator(Operator::GreaterGreater))
    } else if str_eq(value, "&^") {
        Some(TokenKind::Operator(Operator::AmpersandCaret))
    } else if str_eq(value, "+") {
        Some(TokenKind::Operator(Operator::Plus))
    } else if str_eq(value, "-") {
        Some(TokenKind::Operator(Operator::Minus))
    } else if str_eq(value, "*") {
        Some(TokenKind::Operator(Operator::Star))
    } else if str_eq(value, "/") {
        Some(TokenKind::Operator(Operator::Slash))
    } else if str_eq(value, "%") {
        Some(TokenKind::Operator(Operator::Percent))
    } else if str_eq(value, "&") {
        Some(TokenKind::Operator(Operator::Ampersand))
    } else if str_eq(value, "|") {
        Some(TokenKind::Operator(Operator::Pipe))
    } else if str_eq(value, "^") {
        Some(TokenKind::Operator(Operator::Caret))
    } else if str_eq(value, "!") {
        Some(TokenKind::Bang)
    } else if str_eq(value, "=") {
        Some(TokenKind::Equal)
    } else if str_eq(value, ".") {
        Some(TokenKind::Dot)
    } else if str_eq(value, ":") {
        Some(TokenKind::Colon)
    } else if str_eq(value, ",") {
        Some(TokenKind::Comma)
    } else if str_eq(value, ";") {
        Some(TokenKind::Semicolon)
    } else if str_eq(value, "(") {
        Some(TokenKind::LeftParen)
    } else if str_eq(value, ")") {
        Some(TokenKind::RightParen)
    } else if str_eq(value, "[") {
        Some(TokenKind::LeftBracket)
    } else if str_eq(value, "]") {
        Some(TokenKind::RightBracket)
    } else if str_eq(value, "{") {
        Some(TokenKind::LeftBrace)
    } else if str_eq(value, "}") {
        Some(TokenKind::RightBrace)
    } else if str_eq(value, "`") {
        Some(TokenKind::Backtick)
    } else if str_eq(value, "$") {
        Some(TokenKind::DollarSign)
    } else {
        None
    }
}

fn keyword_prefix_lookup(value: &str) -> (r: bool)
    ensures
        r == keyword_prefix(value@),
{
    str_prefix_of(value, "break") || str_prefix_of(value, "case") || str_prefix_of(value, "chan")
        || str_prefix_of(value, "const") || str_prefix_of(value, "continue") || str_prefix_of(
        value,
        "default",
    ) || str_prefix_of(value, "defer") || str_prefix_of(value, "else") || str_prefix_of(
        value,
        "fallthrough",
    ) || str_prefix_of(value, "for") || str_prefix_of(value, "func") || str_prefix_of(value, "go")
        || str_prefix_of(value, "goto") || str_prefix_of(value, "if") || str_prefix_of(
        value,
        "import",
    ) || str_prefix_of(value, "interface") || str_prefix_of(value, "map") || str_prefix_of(
        value,
        "package",
    ) || str_prefix_of(value, "range") || str_prefix_of(value, "return") || str_prefix_of(
        value,
        "select",
    ) || str_prefix_of(value, "struct") || str_prefix_of(value, "switch") || str_prefix_of(
        value,
        "type",
    ) || str_prefix_of(value, "var")
}

fn operator_prefix_lookup(value: &str) -> (r: bool)
    ensures
        r == operator_prefix(value@),
{
    str_prefix_of(value, "+") || str_prefix_of(value, "-") || str_prefix_of(value, "*")
        || str_prefix_of(value, "/") || str_prefix_of(value, "%") || str_prefix_of(value, "&")
        || str_prefix_of(value, "|") || str_prefix_of(value, "^") || str_prefix_of(value, "<<")
        || str_prefix_of(value, ">>") || str_prefix_of(value, "&^") || str_prefix_of(value, "+=")
        || str_prefix_of(value, "-=") || str_prefix_of(value, "*=") || str_prefix_of(value, "/=")
        || str_prefix_of(value, "%=") || str_prefix_of(value, "&=") || str_prefix_of(value, "|=")
        || str_prefix_of(value, "^=") || str_prefix_of(value, "<<=") || str_prefix_of(value, ">>=")
        || str_prefix_of(value, "&^=") || str_prefix_of(value, "&&") || str_prefix_of(value, "||")
        || str_prefix_of(value, "<-") || str_prefix_of(value, "++") || str_prefix_of(value, "--")
        || str_prefix_of(value, "==") || str_prefix_of(value, "!=") || str_prefix_of(value, "<")
        || str_prefix_of(value, "<=") || str_prefix_of(value, ">") || str_prefix_of(value, ">=")
        || str_prefix_of(value, "=") || str_prefix_of(value, ":=") || str_prefix_of(value, "!")
        || str_prefix_of(value, "...") || str_prefix_of(value, ".") || str_prefix_of(value, ":")
        || str_prefix_of(value, ",") || str_prefix_of(value, ";") || str_prefix_of(value, "(")
        || str_prefix_of(value, ")") || str_prefix_of(value, "[") || str_prefix_of(value, "]")
        || str_prefix_of(value, "{") || str_prefix_of(value, "}")
}

fn check_partial_float(value: &str) -> (r: bool)
    ensures
        r == partial_float(value@),
{
    let n = value.unicode_len();
    if n == 0 {
        return false;
    }
    if value.get_char(0) == '.' {
        return false;
    }
    match scan_digits_dots(value) {
        Some(dots) => dots <= 1,
        None => false,
    }
}

impl TokenKind {
    /// Classifies a raw lexeme: `None` means the text is not a token.
    pub fn from_str(value: &str) -> (r: Option<TokenKind>)
        ensures
            r == spec_classify(value@),
    {
        if value.unicode_len() == 0 || check_all_whitespace(value) {
            return None;
        }
        if let Some(k) = keyword_lookup(value) {
            return Some(TokenKind::Keyword(k));
        }
        if let Some(t) = fixed_lookup(value) {
            return Some(t);
        }
        if check_integer(value) {
            return Some(TokenKind::IntegerLiteral);
        }
        if check_float(value) {
            return Some(TokenKind::FloatLiteral);
        }
        if check_identifier(value) {
            return Some(TokenKind::Identifier);
        }
        if check_string_literal(value) {
            return Some(TokenKind::StringLiteral);
        }
        if check_rune_literal(value) {
            return Some(TokenKind::RuneLiteral);
        }
        None
    }

    /// Whether the lexeme classifies as some token.
    pub fn is_tokenizeable(value: &str) -> (r: bool)
        ensures
            r == (spec_classify(value@) is Some),
    {
        TokenKind::from_str(value).is_some()
    }

    /// Whether some valid token could still start with this exact prefix, the
    /// question the tokenizer asks before committing to a shorter token.
    pub fn could_match(input: &str) -> (r: bool)
        ensures
            r == spec_could_match(input@),
    {
        if keyword_prefix_lookup(input) || operator_prefix_lookup(input) {
            return true;
        }
        if check_identifier(input) {
            return true;
        }
        if check_integer(input) {
            return true;
        }
        check_partial_float(input)
    }
}

} // verus!
