//! Programs with the dimension of each expression.

use vstd::prelude::*;
use crate::ast::{BinaryOperator, Number};
use crate::dim;
use crate::dim::Dim;
use crate::ratio::Ratio;
use crate::registry::BaseRepresentation;

verus! {

/// The type of an expression is its dimension.
pub type Type = BaseRepresentation;

/// An expression with the types of its parts.
#[derive(Debug, PartialEq, Eq)]
pub enum Expression {
    Scalar(Number),
    Identifier(String, Type),
    Negate(Box<Expression>, Type),
    BinaryOperator(BinaryOperator, Box<Expression>, Box<Expression>, Type),
    FunctionCall(String, Vec<Expression>, Type),
}

/// The mathematical content of an `Expression`.
pub enum ExpressionView {
    Scalar(Number),
    Identifier(Seq<char>, Dim),
    Negate(Box<ExpressionView>, Dim),
    BinaryOperator(BinaryOperator, Box<ExpressionView>, Box<ExpressionView>, Dim),
    FunctionCall(Seq<char>, Seq<ExpressionView>, Dim),
}

impl ExpressionView {
    /// The dimension of an expression.
    pub open spec fn get_type(self) -> Dim {
        match self {
            ExpressionView::Scalar(_) => dim::unity(),
            ExpressionView::Identifier(_, d) => d,
            ExpressionView::Negate(_, d) => d,
            ExpressionView::BinaryOperator(_, _, _, d) => d,
            ExpressionView::FunctionCall(_, _, d) => d,
        }
    }
}

pub open spec fn expression_view(e: Expression) -> ExpressionView
    decreases e,
{
    match e {
        Expression::Scalar(n) => ExpressionView::Scalar(n),
        Expression::Identifier(name, t) => ExpressionView::Identifier(name@, t@),
        Expression::Negate(x, t) => ExpressionView::Negate(Box::new(expression_view(*x)), t@),
        Expression::BinaryOperator(op, x, y, t) => ExpressionView::BinaryOperator(
            op,
            Box::new(expression_view(*x)),
            Box::new(expression_view(*y)),
            t@,
        ),
        Expression::FunctionCall(name, args, t) => ExpressionView::FunctionCall(
            name@,
            expression_views(args@),
            t@,
        ),
    }
}

pub open spec fn expression_views(s: Seq<Expression>) -> Seq<ExpressionView>
    decreases s,
{
    if s.len() == 0 {
        Seq::empty()
    } else {
        expression_views(s.drop_last()).push(expression_view(s.last()))
    }
}

impl View for Expression {
    type V = ExpressionView;

    open spec fn view(&self) -> ExpressionView {
        expression_view(*self)
    }
}

/// The views of the expressions of a list, one by one.
pub proof fn lemma_expression_views(s: Seq<Expression>)
    ensures
        expression_views(s).len() == s.len(),
        forall|i: int| 0 <= i < s.len() ==> #[trigger] expression_views(s)[i] == s[i]@,
    decreases s,
{
    if s.len() > 0 {
        lemma_expression_views(s.drop_last());
    }
}

impl Expression {
    /// The type of an expression.
    pub fn get_type(&self) -> (t: Type)
        ensures
            t@ == self@.get_type(),
    {
        match self {
            Expression::Scalar(_) => Type::unity(),
            Expression::Identifier(_, t) => t.clone(),
            Expression::Negate(_, t) => t.clone(),
            Expression::BinaryOperator(_, _, _, t) => t.clone(),
            Expression::FunctionCall(_, _, t) => t.clone(),
        }
    }
}

/// A statement with the types of its parts.
#[derive(Debug, PartialEq, Eq)]
pub enum Statement {
    Expression(Expression),
    DeclareVariable(String, Expression, Type),
    DeclareFunction(String, Vec<(String, Type)>, Expression, Type),
    DeclareDimension(String),
    DeclareBaseUnit(String, Type),
    DeclareDerivedUnit(String, Expression, Type),
}

/// The mathematical content of a `Statement`.
pub enum StatementView {
    Expression(ExpressionView),
    DeclareVariable(Seq<char>, ExpressionView, Dim),
    DeclareFunction(Seq<char>, Seq<(Seq<char>, Dim)>, ExpressionView, Dim),
    DeclareDimension(Seq<char>),
    DeclareBaseUnit(Seq<char>, Dim),
    DeclareDerivedUnit(Seq<char>, ExpressionView, Dim),
}

/// The names and types of a list of parameters.
pub open spec fn parameter_views(s: Seq<(String, Type)>) -> Seq<(Seq<char>, Dim)> {
    s.map_values(|p: (String, Type)| (p.0@, p.1@))
}

impl View for Statement {
    type V = StatementView;

    open spec fn view(&self) -> StatementView {
        match *self {
            Statement::Expression(e) => StatementView::Expression(e@),
            Statement::DeclareVariable(name, e, t) => StatementView::DeclareVariable(
                name@,
                e@,
                t@,
            ),
            Statement::DeclareFunction(name, params, e, t) => StatementView::DeclareFunction(
                name@,
                parameter_views(params@),
                e@,
                t@,
            ),
            Statement::DeclareDimension(name) => StatementView::DeclareDimension(name@),
            Statement::DeclareBaseUnit(name, t) => StatementView::DeclareBaseUnit(name@, t@),
            Statement::DeclareDerivedUnit(name, e, t) => StatementView::DeclareDerivedUnit(
                name@,
                e@,
                t@,
            ),
        }
    }
}

/// The type of an expression is the one that it records; a number is a plain number.
pub proof fn law_recorded_type_counts(e: Expression)
    ensures
        match e {
            Expression::Scalar(_) => e@.get_type() == Map::<Seq<char>, Ratio>::empty(),
            Expression::Identifier(_, t) => e@.get_type() == t@,
            Expression::Negate(_, t) => e@.get_type() == t@,
            Expression::BinaryOperator(_, _, _, t) => e@.get_type() == t@,
            Expression::FunctionCall(_, _, t) => e@.get_type() == t@,
        },
{
}

/// A typed expression holds its parts in their places, with their types.
pub proof fn law_content_of_expression(e: Expression)
    ensures
        match e {
            Expression::Scalar(n) => e@ == ExpressionView::Scalar(n),
            Expression::Identifier(name, t) => e@ == ExpressionView::Identifier(name@, t@),
            Expression::Negate(x, t) => e@ == ExpressionView::Negate(Box::new(x@), t@),
            Expression::BinaryOperator(op, x, y, t) => e@ == ExpressionView::BinaryOperator(
                op,
                Box::new(x@),
                Box::new(y@),
                t@,
            ),
            Expression::FunctionCall(name, args, t) => {
                &&& e@ matches ExpressionView::FunctionCall(n, us, d)
                &&& n == name@
                &&& d == t@
                &&& us.len() == args@.len()
                &&& forall|i: int| 0 <= i < us.len() ==> #[trigger] us[i] == args@[i]@
            },
        },
{
    if let Expression::FunctionCall(_, args, _) = e {
        lemma_expression_views(args@);
    }
}

/// A typed statement holds its parts in their places, with their types.
pub proof fn law_content_of_statement(s: Statement)
    ensures
        match s {
            Statement::Expression(e) => s@ == StatementView::Expression(e@),
            Statement::DeclareVariable(name, e, t) => s@ == StatementView::DeclareVariable(
                name@,
                e@,
                t@,
            ),
            Statement::DeclareFunction(name, params, e, t) => {
                &&& s@ matches StatementView::DeclareFunction(n, ps, u, d)
                &&& n == name@
                &&& u == e@
                &&& d == t@
                &&& ps.len() == params@.len()
                &&& forall|i: int|
                    0 <= i < ps.len() ==> #[trigger] ps[i] == (params@[i].0@, params@[i].1@)
            },
            Statement::DeclareDimension(name) => s@ == StatementView::DeclareDimension(name@),
            Statement::DeclareBaseUnit(name, t) => s@ == StatementView::DeclareBaseUnit(name@, t@),
            Statement::DeclareDerivedUnit(name, e, t) => s@ == StatementView::DeclareDerivedUnit(
                name@,
                e@,
                t@,
            ),
        },
{
}

} // verus!
