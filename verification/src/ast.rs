//! The abstract syntax tree the parser produces: a program is an ordered
//! sequence of statements, and expressions are built bottom-up from
//! primaries, call and field-access trailers, and binary operators.

use vstd::prelude::*;
use crate::position::Position;

verus! {

/// A parsed program: its statements in source order.
pub struct Program {
    pub statements: Vec<Statement>,
}

#[derive(Debug, PartialEq)]
pub struct Statement {
    pub kind: StatementKind,
    pub position_start: Position,
    pub position_end: Position,
}

#[derive(Debug, PartialEq)]
pub enum StatementKind {
    Expression(Expression),
    PackageDeclaration(String),
    ImportDeclaration(String),
    FunctionDeclaration { name: String, parameters: Vec<String>, body: Vec<Statement> },
}

#[derive(Debug, PartialEq)]
pub struct Expression {
    pub kind: ExpressionKind,
    pub position_start: Position,
    pub position_end: Position,
}

#[derive(Debug, PartialEq)]
pub enum ExpressionKind {
    Identifier(String),
    IntegerLiteral(String),
    StringLiteral(String),
    FunctionCall { name: Box<Expression>, arguments: Vec<Expression> },
    FieldAccess { object: Box<Expression>, field: String },
    Binary { left: Box<Expression>, operator: BinaryOperator, right: Box<Expression> },
    Parenthesized(Box<Expression>),
}

/// The binary operators of the restricted expression grammar.
#[derive(Debug, PartialEq, Eq, Structural, Copy, Clone)]
pub enum BinaryOperator {
    Add,
    Subtract,
    Multiply,
    Divide,
    Modulo,
    Equal,
    NotEqual,
    Less,
    LessEqual,
    Greater,
    GreaterEqual,
}

/// Operator precedence: comparisons bind loosest, additive operators next,
/// multiplicative operators tightest.
pub open spec fn spec_binary_precedence(op: BinaryOperator) -> u8 {
    match op {
        BinaryOperator::Equal
        | BinaryOperator::NotEqual
        | BinaryOperator::Less
        | BinaryOperator::LessEqual
        | BinaryOperator::Greater
        | BinaryOperator::GreaterEqual => 1,
        BinaryOperator::Add | BinaryOperator::Subtract => 2,
        BinaryOperator::Multiply | BinaryOperator::Divide | BinaryOperator::Modulo => 3,
    }
}

impl BinaryOperator {
    /// Get operator precedence (higher number = higher precedence).
    pub fn precedence(&self) -> (r: u8)
        ensures
            r == spec_binary_precedence(*self),
    {
        match self {
            BinaryOperator::Equal
            | BinaryOperator::NotEqual
            | BinaryOperator::Less
            | BinaryOperator::LessEqual
            | BinaryOperator::Greater
            | BinaryOperator::GreaterEqual => 1,
            BinaryOperator::Add | BinaryOperator::Subtract => 2,
            BinaryOperator::Multiply | BinaryOperator::Divide | BinaryOperator::Modulo => 3,
        }
    }
}

/// The mathematical value of a [`Program`].
#[verifier::ext_equal]
pub struct ProgramView {
    pub statements: Seq<StatementView>,
}

/// The mathematical value of a [`Statement`].
#[verifier::ext_equal]
pub struct StatementView {
    pub kind: StatementKindView,
    pub position_start: Position,
    pub position_end: Position,
}

#[verifier::ext_equal]
pub enum StatementKindView {
    Expression(ExpressionView),
    PackageDeclaration(Seq<char>),
    ImportDeclaration(Seq<char>),
    FunctionDeclaration { name: Seq<char>, parameters: Seq<Seq<char>>, body: Seq<StatementView> },
}

/// The mathematical value of an [`Expression`].
#[verifier::ext_equal]
pub struct ExpressionView {
    pub kind: ExpressionKindView,
    pub position_start: Position,
    pub position_end: Position,
}

#[verifier::ext_equal]
pub enum ExpressionKindView {
    Identifier(Seq<char>),
    IntegerLiteral(Seq<char>),
    StringLiteral(Seq<char>),
    FunctionCall { name: Box<ExpressionView>, arguments: Seq<ExpressionView> },
    FieldAccess { object: Box<ExpressionView>, field: Seq<char> },
    Binary { left: Box<ExpressionView>, operator: BinaryOperator, right: Box<ExpressionView> },
    Parenthesized(Box<ExpressionView>),
}

pub open spec fn expr_view(e: Expression) -> ExpressionView
    decreases e, 1int,
{
    ExpressionView {
        kind: match e.kind {
            ExpressionKind::Identifier(s) => ExpressionKindView::Identifier(s@),
            ExpressionKind::IntegerLiteral(s) => ExpressionKindView::IntegerLiteral(s@),
            ExpressionKind::StringLiteral(s) => ExpressionKindView::StringLiteral(s@),
            ExpressionKind::FunctionCall { name, arguments } => ExpressionKindView::FunctionCall {
                name: Box::new(expr_view(*name)),
                arguments: exprs_view(arguments@),
            },
            ExpressionKind::FieldAccess { object, field } => ExpressionKindView::FieldAccess {
                object: Box::new(expr_view(*object)),
                field: field@,
            },
            ExpressionKind::Binary { left, operator, right } => ExpressionKindView::Binary {
                left: Box::new(expr_view(*left)),
                operator,
                right: Box::new(expr_view(*right)),
            },
            ExpressionKind::Parenthesized(inner) => ExpressionKindView::Parenthesized(
                Box::new(expr_view(*inner)),
            ),
        },
        position_start: e.position_start,
        position_end: e.position_end,
    }
}

pub open spec fn exprs_view(es: Seq<Expression>) -> Seq<ExpressionView>
    decreases es, 0int,
{
    if es.len() == 0 {
        Seq::empty()
    } else {
        seq![expr_view(es[0])] + exprs_view(es.subrange(1, es.len() as int))
    }
}

pub open spec fn strings_view(ss: Seq<String>) -> Seq<Seq<char>> {
    Seq::new(ss.len(), |i: int| ss[i]@)
}

pub open spec fn stmt_view(s: Statement) -> StatementView
    decreases s, 1int,
{
    StatementView {
        kind: match s.kind {
            StatementKind::Expression(e) => StatementKindView::Expression(expr_view(e)),
            StatementKind::PackageDeclaration(name) => StatementKindView::PackageDeclaration(name@),
            StatementKind::ImportDeclaration(path) => StatementKindView::ImportDeclaration(path@),
            StatementKind::FunctionDeclaration { name, parameters, body } => {
                StatementKindView::FunctionDeclaration {
                    name: name@,
                    parameters: strings_view(parameters@),
                    body: stmts_view(body@),
                }
            },
        },
        position_start: s.position_start,
        position_end: s.position_end,
    }
}

pub open spec fn stmts_view(ss: Seq<Statement>) -> Seq<StatementView>
    decreases ss, 0int,
{
    if ss.len() == 0 {
        Seq::empty()
    } else {
        seq![stmt_view(ss[0])] + stmts_view(ss.subrange(1, ss.len() as int))
    }
}

/// The view of a statement sequence has one view per statement, in order.
pub proof fn lemma_stmts_view_index(ss: Seq<Statement>)
    ensures
        stmts_view(ss).len() == ss.len(),
        forall|i: int| 0 <= i < ss.len() ==> stmts_view(ss)[i] == stmt_view(ss[i]),
    decreases ss.len(),
{
    if ss.len() > 0 {
        lemma_stmts_view_index(ss.subrange(1, ss.len() as int));
    }
}

/// The view of an expression sequence has one view per expression, in order.
pub proof fn lemma_exprs_view_index(es: Seq<Expression>)
    ensures
        exprs_view(es).len() == es.len(),
        forall|i: int| 0 <= i < es.len() ==> exprs_view(es)[i] == expr_view(es[i]),
    decreases es.len(),
{
    if es.len() > 0 {
        lemma_exprs_view_index(es.subrange(1, es.len() as int));
    }
}

/// Appending a statement appends its view.
pub proof fn lemma_stmts_view_push(ss: Seq<Statement>, s: Statement)
    ensures
        stmts_view(ss.push(s)) == stmts_view(ss).push(stmt_view(s)),
    decreases ss.len(),
{
    if ss.len() == 0 {
        assert(ss.push(s)[0] == s);
        assert(ss.push(s).subrange(1, ss.push(s).len() as int) =~= Seq::<Statement>::empty());
        assert(stmts_view(Seq::<Statement>::empty()) =~= Seq::<StatementView>::empty());
        assert(stmts_view(ss.push(s)) =~= stmts_view(ss).push(stmt_view(s)));
    } else {
        let tail = ss.subrange(1, ss.len() as int);
        assert(ss.push(s)[0] == ss[0]);
        assert(ss.push(s).subrange(1, ss.push(s).len() as int) =~= tail.push(s));
        lemma_stmts_view_push(tail, s);
        assert(stmts_view(ss.push(s)) == seq![stmt_view(ss[0])] + stmts_view(tail).push(
            stmt_view(s),
        ));
        assert(seq![stmt_view(ss[0])] + stmts_view(tail).push(stmt_view(s)) =~= (
        seq![stmt_view(ss[0])] + stmts_view(tail)).push(stmt_view(s)));
    }
}

/// Appending an expression appends its view.
pub proof fn lemma_exprs_view_push(es: Seq<Expression>, e: Expression)
    ensures
        exprs_view(es.push(e)) == exprs_view(es).push(expr_view(e)),
    decreases es.len(),
{
    if es.len() == 0 {
        assert(es.push(e)[0] == e);
        assert(es.push(e).subrange(1, es.push(e).len() as int) =~= Seq::<Expression>::empty());
        assert(exprs_view(Seq::<Expression>::empty()) =~= Seq::<ExpressionView>::empty());
        assert(exprs_view(es.push(e)) =~= exprs_view(es).push(expr_view(e)));
    } else {
        let tail = es.subrange(1, es.len() as int);
        assert(es.push(e)[0] == es[0]);
        assert(es.push(e).subrange(1, es.push(e).len() as int) =~= tail.push(e));
        lemma_exprs_view_push(tail, e);
        assert(exprs_view(es.push(e)) == seq![expr_view(es[0])] + exprs_view(tail).push(
            expr_view(e),
        ));
        assert(seq![expr_view(es[0])] + exprs_view(tail).push(expr_view(e)) =~= (
        seq![expr_view(es[0])] + exprs_view(tail)).push(expr_view(e)));
    }
}

impl View for Expression {
    type V = ExpressionView;

    open spec fn view(&self) -> ExpressionView {
        expr_view(*self)
    }
}

impl View for Statement {
    type V = StatementView;

    open spec fn view(&self) -> StatementView {
        stmt_view(*self)
    }
}

impl View for Program {
    type V = ProgramView;

    open spec fn view(&self) -> ProgramView {
        ProgramView { statements: stmts_view(self.statements@) }
    }
}

impl Expression {
    pub fn new(kind: ExpressionKind, position_start: Position, position_end: Position) -> (e:
        Expression)
        ensures
            e == (Expression { kind, position_start, position_end }),
    {
        Expression { kind, position_start, position_end }
    }

    pub fn new_identifier(value: String, position: Position) -> (e: Expression)
        ensures
            e@ == (ExpressionView {
                kind: ExpressionKindView::Identifier(value@),
                position_start: position,
                position_end: position,
            }),
    {
        Expression::new(ExpressionKind::Identifier(value), position, position)
    }

    pub fn new_integer_literal(value: String, position: Position) -> (e: Expression)
        ensures
            e@ == (ExpressionView {
                kind: ExpressionKindView::IntegerLiteral(value@),
                position_start: position,
                position_end: position,
            }),
    {
        Expression::new(ExpressionKind::IntegerLiteral(value), position, position)
    }

    pub fn new_string_literal(value: String, position: Position) -> (e: Expression)
        ensures
            e@ == (ExpressionView {
                kind: ExpressionKindView::StringLiteral(value@),
                position_start: position,
                position_end: position,
            }),
    {
        Expression::new(ExpressionKind::StringLiteral(value), position, position)
    }

    pub fn new_function_call(
        name: Expression,
        arguments: Vec<Expression>,
        start_pos: Position,
        end_pos: Position,
    ) -> (e: Expression)
        ensures
            e@ == (ExpressionView {
                kind: ExpressionKindView::FunctionCall {
                    name: Box::new(name@),
                    arguments: exprs_view(arguments@),
                },
                position_start: start_pos,
                position_end: end_pos,
            }),
    {
        Expression::new(
            ExpressionKind::FunctionCall { name: Box::new(name), arguments },
            start_pos,
            end_pos,
        )
    }

    pub fn new_field_access(
        object: Expression,
        field: String,
        start_pos: Position,
        end_pos: Position,
    ) -> (e: Expression)
        ensures
            e@ == (ExpressionView {
                kind: ExpressionKindView::FieldAccess { object: Box::new(object@), field: field@ },
                position_start: start_pos,
                position_end: end_pos,
            }),
    {
        Expression::new(
            ExpressionKind::FieldAccess { object: Box::new(object), field },
            start_pos,
            end_pos,
        )
    }

    pub fn new_binary(
        left: Expression,
        operator: BinaryOperator,
        right: Expression,
        start_pos: Position,
        end_pos: Position,
    ) -> (e: Expression)
        ensures
            e@ == (ExpressionView {
                kind: ExpressionKindView::Binary {
                    left: Box::new(left@),
                    operator,
                    right: Box::new(right@),
                },
                position_start: start_pos,
                position_end: end_pos,
            }),
    {
        Expression::new(
            ExpressionKind::Binary { left: Box::new(left), operator, right: Box::new(right) },
            start_pos,
            end_pos,
        )
    }

    pub fn new_parenthesized(expression: Expression, start_pos: Position, end_pos: Position) -> (e:
        Expression)
        ensures
            e@ == (ExpressionView {
                kind: ExpressionKindView::Parenthesized(Box::new(expression@)),
                position_start: start_pos,
                position_end: end_pos,
            }),
    {
        Expression::new(ExpressionKind::Parenthesized(Box::new(expression)), start_pos, end_pos)
    }
}

impl Statement {
    pub fn new(kind: StatementKind, position_start: Position, position_end: Position) -> (s:
        Statement)
        ensures
            s == (Statement { kind, position_start, position_end }),
    {
        Statement { kind, position_start, position_end }
    }

    pub fn new_package_declaration(name: String, start_pos: Position, end_pos: Position) -> (s:
        Statement)
        ensures
            s@ == (StatementView {
                kind: StatementKindView::PackageDeclaration(name@),
                position_start: start_pos,
                position_end: end_pos,
            }),
    {
        Statement::new(StatementKind::PackageDeclaration(name), start_pos, end_pos)
    }

    pub fn new_import_declaration(path: String, start_pos: Position, end_pos: Position) -> (s:
        Statement)
        ensures
            s@ == (StatementView {
                kind: StatementKindView::ImportDeclaration(path@),
                position_start: start_pos,
                position_end: end_pos,
            }),
    {
        Statement::new(StatementKind::ImportDeclaration(path), start_pos, end_pos)
    }

    pub fn new_function_declaration(
        name: String,
        parameters: Vec<String>,
        body: Vec<Statement>,
        start_pos: Position,
        end_pos: Position,
    ) -> (s: Statement)
        ensures
            s@ == (StatementView {
                kind: StatementKindView::FunctionDeclaration {
                    name: name@,
                    parameters: strings_view(parameters@),
                    body: stmts_view(body@),
                },
                position_start: start_pos,
                position_end: end_pos,
            }),
    {
        Statement::new(
            StatementKind::FunctionDeclaration { name, parameters, body },
            start_pos,
            end_pos,
        )
    }

    pub fn new_expression_statement(
        expression: Expression,
        start_pos: Position,
        end_pos: Position,
    ) -> (s: Statement)
        ensures
            s@ == (StatementView {
                kind: StatementKindView::Expression(expression@),
                position_start: start_pos,
                position_end: end_pos,
            }),
    {
        Statement::new(StatementKind::Expression(expression), start_pos, end_pos)
    }
}

} // verus!
