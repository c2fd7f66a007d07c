//! Programs as they are parsed.

use vstd::prelude::*;
use crate::arithmetic::Exponent;

verus! {

/// A number in a program.
///
/// A floating-point value is carried as its bits. Where the number stands in an exponent of a
/// dimension, its rational value counts, if it has one.
#[derive(Clone, Copy, Debug, PartialEq, Eq)]
pub struct Number {
    /// The bits of the floating-point value.
    pub bits: u64,
    /// The rational value; none if the number is not finite or too large.
    pub exponent: Option<Exponent>,
}

/// The binary operators.
#[derive(Clone, Copy, Debug, PartialEq, Eq, Structural)]
pub enum BinaryOperator {
    Add,
    Sub,
    Mul,
    Div,
    Power,
    ConvertTo,
}

/// An expression.
#[derive(Debug, PartialEq, Eq)]
pub enum Expression {
    Scalar(Number),
    Identifier(String),
    Negate(Box<Expression>),
    BinaryOperator(BinaryOperator, Box<Expression>, Box<Expression>),
    FunctionCall(String, Vec<Expression>),
}

/// A dimension as it is written in a type annotation or a declaration.
#[derive(Debug, PartialEq, Eq)]
pub enum DimensionExpression {
    Unity,
    Dimension(String),
    Multiply(Box<DimensionExpression>, Box<DimensionExpression>),
    Divide(Box<DimensionExpression>, Box<DimensionExpression>),
    Power(Box<DimensionExpression>, Exponent),
}

/// A statement.
#[derive(Debug, PartialEq, Eq)]
pub enum Statement {
    Expression(Expression),
    /// A variable, its value, and the dimension it is annotated with.
    DeclareVariable(String, Expression, Option<DimensionExpression>),
    /// A function: its name, type parameters, parameters with their annotations, body, and the
    /// annotated dimension of its result.
    DeclareFunction(
        String,
        Vec<String>,
        Vec<(String, Option<DimensionExpression>)>,
        Expression,
        Option<DimensionExpression>,
    ),
    /// A dimension and the expressions it equals; a base dimension if there are none.
    DeclareDimension(String, Vec<DimensionExpression>),
    /// A unit that is not defined by others, and its dimension.
    DeclareBaseUnit(String, DimensionExpression),
    /// A unit, its value in terms of others, and the dimension it is annotated with.
    DeclareDerivedUnit(String, Expression, Option<DimensionExpression>),
}

impl Number {
    /// Whether the rational value is in lowest terms, as every `Rational` is.
    pub open spec fn valid(self) -> bool {
        self.exponent matches Some(r) ==> r@.reduced()
    }
}

/// Whether the numbers in an expression are in lowest terms, as every `Rational` is.
pub open spec fn expression_valid(e: Expression) -> bool
    decreases e,
{
    match e {
        Expression::Scalar(n) => n.valid(),
        Expression::Identifier(_) => true,
        Expression::Negate(x) => expression_valid(*x),
        Expression::BinaryOperator(_, x, y) => expression_valid(*x) && expression_valid(*y),
        Expression::FunctionCall(_, args) => expressions_valid(args@),
    }
}

/// Whether the numbers in expressions are in lowest terms, as every `Rational` is.
pub open spec fn expressions_valid(s: Seq<Expression>) -> bool
    decreases s,
{
    s.len() == 0 || (expressions_valid(s.drop_last()) && expression_valid(s.last()))
}

/// Whether the exponents in a dimension expression are in lowest terms, as every `Rational` is.
pub open spec fn dimension_valid(e: DimensionExpression) -> bool
    decreases e,
{
    match e {
        DimensionExpression::Unity => true,
        DimensionExpression::Dimension(_) => true,
        DimensionExpression::Multiply(x, y) => dimension_valid(*x) && dimension_valid(*y),
        DimensionExpression::Divide(x, y) => dimension_valid(*x) && dimension_valid(*y),
        DimensionExpression::Power(x, n) => dimension_valid(*x) && n@.reduced(),
    }
}

/// Whether the numbers in a statement are in lowest terms, as every `Rational` is.
pub open spec fn statement_valid(s: Statement) -> bool {
    match s {
        Statement::Expression(e) => expression_valid(e),
        Statement::DeclareVariable(_, e, d) => {
            expression_valid(e) && (d matches Some(d) ==> dimension_valid(d))
        },
        Statement::DeclareDerivedUnit(_, e, d) => {
            expression_valid(e) && (d matches Some(d) ==> dimension_valid(d))
        },
        Statement::DeclareFunction(_, _, ps, e, d) => {
            &&& expression_valid(e)
            &&& d matches Some(d) ==> dimension_valid(d)
            &&& forall|i: int|
                0 <= i < ps@.len() ==> ((#[trigger] ps@[i]).1 matches Some(d) ==> dimension_valid(d))
        },
        Statement::DeclareDimension(_, ds) => forall|i: int|
            0 <= i < ds@.len() ==> dimension_valid(#[trigger] ds@[i]),
        Statement::DeclareBaseUnit(_, d) => dimension_valid(d),
    }
}

} // verus!
