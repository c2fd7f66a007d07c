//! The typing rules.

use vstd::prelude::*;
use crate::arithmetic;
use crate::ast;
use crate::dim;
use crate::dim::Dim;
use crate::fault;
use crate::fault::Fault;
use crate::ratio::Ratio;
use crate::registry;
use crate::registry::{RegistryErrorView, RegistryView};
use crate::typed_ast::{ExpressionView, StatementView};

verus! {

/// What a dimension expression stands for.
pub open spec fn represent(dims: RegistryView, e: ast::DimensionExpression) -> Result<
    Dim,
    Fault<RegistryErrorView>,
>
    decreases e,
{
    match e {
        ast::DimensionExpression::Unity => Ok(dim::unity()),
        ast::DimensionExpression::Dimension(name) => match dims.lookup(name@) {
            Ok(d) => Ok(d),
            Err(e) => Err(Fault::Rejected(e)),
        },
        ast::DimensionExpression::Multiply(x, y) => match (represent(dims, *x), represent(dims, *y)) {
            (Err(f), _) => Err(f),
            (_, Err(f)) => Err(f),
            (Ok(a), Ok(b)) => fault::value_if(registry::product_fits(a, b), dim::product(a, b)),
        },
        ast::DimensionExpression::Divide(x, y) => match (represent(dims, *x), represent(dims, *y)) {
            (Err(f), _) => Err(f),
            (_, Err(f)) => Err(f),
            (Ok(a), Ok(b)) => fault::value_if(registry::quotient_fits(a, b), dim::quotient(a, b)),
        },
        ast::DimensionExpression::Power(x, n) => match represent(dims, *x) {
            Err(f) => Err(f),
            Ok(a) => fault::value_if(registry::power_fits(a, n@), dim::power(a, n@)),
        },
    }
}

/// The mathematical content of the reasons for which a program is refused.
pub enum ErrorView {
    UnknownIdentifier(Seq<char>),
    UnknownFunction(Seq<char>),
    IncompatibleDimensions(Seq<char>, Seq<char>, Dim, Seq<char>, Dim),
    NonScalarExponent(Dim),
    RegistryError(RegistryErrorView),
    IncompatibleAlternativeDimensionExpression(Seq<char>),
    WrongArity(Seq<char>, nat, nat),
    UnsupportedConstExpression(Seq<char>),
}

/// The dimensions of the parameters of a function and of its result.
pub struct SignatureView {
    pub parameters: Seq<Dim>,
    pub return_type: Dim,
}

/// What an expression may refer to: variables and units with their dimensions, and functions.
pub struct Scope {
    pub identifiers: Map<Seq<char>, Dim>,
    pub functions: Map<Seq<char>, SignatureView>,
}

impl Scope {
    /// The scope in which a name has a dimension, whatever it had before.
    pub open spec fn with_identifier(self, name: Seq<char>, d: Dim) -> Scope {
        Scope { identifiers: self.identifiers.insert(name, d), functions: self.functions }
    }

    /// The scope in which a function has a signature, whatever it had before.
    pub open spec fn with_function(self, name: Seq<char>, s: SignatureView) -> Scope {
        Scope { identifiers: self.identifiers, functions: self.functions.insert(name, s) }
    }

    /// The scope of the body of a function: its parameters hide what they are named like, and of
    /// two with one name the later counts.
    pub open spec fn with_parameters(self, parameters: Seq<(Seq<char>, Dim)>) -> Scope
        decreases parameters.len(),
    {
        if parameters.len() == 0 {
            self
        } else {
            self.with_parameters(parameters.drop_last()).with_identifier(
                parameters.last().0,
                parameters.last().1,
            )
        }
    }
}

/// What has been declared.
pub struct CheckerView {
    pub scope: Scope,
    pub dims: RegistryView,
}

impl CheckerView {
    /// Nothing has been declared.
    pub open spec fn empty() -> CheckerView {
        CheckerView {
            scope: Scope { identifiers: Map::empty(), functions: Map::empty() },
            dims: RegistryView { bases: Set::empty(), derived: Map::empty() },
        }
    }

    pub open spec fn with_scope(self, scope: Scope) -> CheckerView {
        CheckerView { scope, dims: self.dims }
    }

    pub open spec fn with_dims(self, dims: RegistryView) -> CheckerView {
        CheckerView { scope: self.scope, dims }
    }
}

/// Refusal because a constant expression holds what cannot be evaluated.
pub open spec fn unsupported(what: Seq<char>) -> Result<Ratio, Fault<ErrorView>> {
    Err(Fault::Rejected(ErrorView::UnsupportedConstExpression(what)))
}

/// The value of an expression in an exponent: numbers, their negatives, sums, differences,
/// products and quotients have one.
pub open spec fn const_value(e: ExpressionView) -> Result<Ratio, Fault<ErrorView>>
    decreases e,
{
    match e {
        ExpressionView::Scalar(n) => match n.exponent {
            Some(r) => Ok(r@),
            None => Err(Fault::Undefined),
        },
        ExpressionView::Negate(x, _) => match const_value(*x) {
            Err(f) => Err(f),
            Ok(v) => fault::value_if(arithmetic::fits(v.negate()), v.negate()),
        },
        ExpressionView::BinaryOperator(op, x, y, _) => match (const_value(*x), const_value(*y)) {
            (Err(f), _) => Err(f),
            (_, Err(f)) => Err(f),
            (Ok(v), Ok(w)) => match op {
                ast::BinaryOperator::Add => fault::value_if(
                    arithmetic::sum_fits(v, w),
                    v.plus(w),
                ),
                ast::BinaryOperator::Sub => fault::value_if(
                    arithmetic::difference_fits(v, w),
                    v.minus(w),
                ),
                ast::BinaryOperator::Mul => fault::value_if(
                    arithmetic::fits(v.times(w)),
                    v.times(w),
                ),
                ast::BinaryOperator::Div => fault::value_if(
                    arithmetic::quotient_fits(v, w),
                    v.over(w),
                ),
                ast::BinaryOperator::Power => unsupported("exponentiation"@),
                ast::BinaryOperator::ConvertTo => unsupported("conversion"@),
            },
        },
        ExpressionView::Identifier(_, _) => unsupported("identifier"@),
        ExpressionView::FunctionCall(_, _, _) => unsupported("function call"@),
    }
}

/// The dimension of two operands that must agree.
pub open spec fn common_type(lhs: Dim, rhs: Dim) -> Result<Dim, Fault<ErrorView>> {
    if lhs == rhs {
        Ok(lhs)
    } else {
        Err(
            Fault::Rejected(
                ErrorView::IncompatibleDimensions(
                    "binary operator"@,
                    " left hand side"@,
                    lhs,
                    "right hand side"@,
                    rhs,
                ),
            ),
        )
    }
}

/// The dimension of a power. The exponent must be a plain number; unless the base is one too, the
/// value of the exponent counts.
pub open spec fn power_type(lhs: Dim, rhs: ExpressionView) -> Result<Dim, Fault<ErrorView>> {
    if rhs.get_type() != dim::unity() {
        Err(Fault::Rejected(ErrorView::NonScalarExponent(rhs.get_type())))
    } else if lhs == dim::unity() {
        Ok(lhs)
    } else {
        match const_value(rhs) {
            Err(f) => Err(f),
            Ok(v) => fault::value_if(registry::power_fits(lhs, v), dim::power(lhs, v)),
        }
    }
}

/// The dimension of the result of a binary operator.
pub open spec fn operator_type(
    op: ast::BinaryOperator,
    lhs: ExpressionView,
    rhs: ExpressionView,
) -> Result<Dim, Fault<ErrorView>> {
    let (l, r) = (lhs.get_type(), rhs.get_type());
    match op {
        ast::BinaryOperator::Add => common_type(l, r),
        ast::BinaryOperator::Sub => common_type(l, r),
        ast::BinaryOperator::Mul => fault::value_if(
            registry::product_fits(l, r),
            dim::product(l, r),
        ),
        ast::BinaryOperator::Div => fault::value_if(
            registry::quotient_fits(l, r),
            dim::quotient(l, r),
        ),
        ast::BinaryOperator::Power => power_type(l, rhs),
        ast::BinaryOperator::ConvertTo => common_type(l, r),
    }
}

/// The decimal digits of a number.
pub open spec fn decimal(n: nat) -> Seq<char>
    decreases n,
{
    let digit = seq!['0', '1', '2', '3', '4', '5', '6', '7', '8', '9'][(n % 10) as int];
    if n < 10 {
        seq![digit]
    } else {
        decimal(n / 10).push(digit)
    }
}

/// How an error message names an argument, counted from one.
pub open spec fn argument_label(number: nat, function: Seq<char>) -> Seq<char> {
    "argument "@ + decimal(number) + " of function call to '"@ + function + "'"@
}

/// The index of the first argument, from `k` on, whose dimension is not that of its parameter.
pub open spec fn first_mismatch(
    parameters: Seq<Dim>,
    arguments: Seq<ExpressionView>,
    k: nat,
) -> Option<nat>
    decreases parameters.len() - k,
{
    if k >= parameters.len() {
        None
    } else if parameters[k as int] != arguments[k as int].get_type() {
        Some(k)
    } else {
        first_mismatch(parameters, arguments, k + 1)
    }
}

/// A call with checked arguments, as many as the function has parameters.
pub open spec fn call_type(
    name: Seq<char>,
    signature: SignatureView,
    arguments: Seq<ExpressionView>,
) -> Result<Dim, Fault<ErrorView>> {
    match first_mismatch(signature.parameters, arguments, 0) {
        Some(k) => Err(
            Fault::Rejected(
                ErrorView::IncompatibleDimensions(
                    argument_label(k + 1, name),
                    "parameter type"@,
                    signature.parameters[k as int],
                    " argument type"@,
                    arguments[k as int].get_type(),
                ),
            ),
        ),
        None => Ok(signature.return_type),
    }
}

/// An expression with the dimensions of its parts, or why it is refused. Operands are checked
/// before the operator, from left to right.
pub open spec fn check(scope: Scope, e: ast::Expression) -> Result<
    ExpressionView,
    Fault<ErrorView>,
>
    decreases e,
{
    match e {
        ast::Expression::Scalar(n) => Ok(ExpressionView::Scalar(n)),
        ast::Expression::Identifier(name) => if scope.identifiers.contains_key(name@) {
            Ok(ExpressionView::Identifier(name@, scope.identifiers[name@]))
        } else {
            Err(Fault::Rejected(ErrorView::UnknownIdentifier(name@)))
        },
        ast::Expression::Negate(x) => match check(scope, *x) {
            Err(f) => Err(f),
            Ok(t) => Ok(ExpressionView::Negate(Box::new(t), t.get_type())),
        },
        ast::Expression::BinaryOperator(op, x, y) => match (check(scope, *x), check(scope, *y)) {
            (Err(f), _) => Err(f),
            (_, Err(f)) => Err(f),
            (Ok(lhs), Ok(rhs)) => match operator_type(op, lhs, rhs) {
                Err(f) => Err(f),
                Ok(d) => Ok(ExpressionView::BinaryOperator(op, Box::new(lhs), Box::new(rhs), d)),
            },
        },
        ast::Expression::FunctionCall(name, args) => if !scope.functions.contains_key(name@) {
            Err(Fault::Rejected(ErrorView::UnknownFunction(name@)))
        } else {
            let signature = scope.functions[name@];
            if signature.parameters.len() != args@.len() {
                Err(
                    Fault::Rejected(
                        ErrorView::WrongArity(name@, signature.parameters.len(), args@.len()),
                    ),
                )
            } else {
                match check_list(scope, args@) {
                    Err(f) => Err(f),
                    Ok(arguments) => match call_type(name@, signature, arguments) {
                        Err(f) => Err(f),
                        Ok(d) => Ok(ExpressionView::FunctionCall(name@, arguments, d)),
                    },
                }
            }
        },
    }
}

/// Expressions with the dimensions of their parts, or why the first that is refused is.
pub open spec fn check_list(scope: Scope, s: Seq<ast::Expression>) -> Result<
    Seq<ExpressionView>,
    Fault<ErrorView>,
>
    decreases s,
{
    if s.len() == 0 {
        Ok(Seq::empty())
    } else {
        match check_list(scope, s.drop_last()) {
            Err(f) => Err(f),
            Ok(ts) => match check(scope, s.last()) {
                Err(f) => Err(f),
                Ok(t) => Ok(ts.push(t)),
            },
        }
    }
}

/// A refusal by the table of dimensions, as a reason to refuse a program.
pub open spec fn lift<T>(r: Result<T, Fault<RegistryErrorView>>) -> Result<T, Fault<ErrorView>> {
    match r {
        Ok(t) => Ok(t),
        Err(Fault::Rejected(e)) => Err(Fault::Rejected(ErrorView::RegistryError(e))),
        Err(Fault::Undefined) => Err(Fault::Undefined),
    }
}

/// Whether a deduced dimension is what an annotation asks for, if there is one.
pub open spec fn check_annotation(
    dims: RegistryView,
    annotation: Option<ast::DimensionExpression>,
    deduced: Dim,
    context: Seq<char>,
    specified_label: Seq<char>,
    actual_label: Seq<char>,
) -> Result<(), Fault<ErrorView>> {
    match annotation {
        None => Ok(()),
        Some(e) => match lift(represent(dims, e)) {
            Err(f) => Err(f),
            Ok(specified) => if deduced == specified {
                Ok(())
            } else {
                Err(
                    Fault::Rejected(
                        ErrorView::IncompatibleDimensions(
                            context,
                            specified_label,
                            specified,
                            actual_label,
                            deduced,
                        ),
                    ),
                )
            },
        },
    }
}

/// The checked value of a variable or a unit.
pub open spec fn check_value(
    c: CheckerView,
    e: ast::Expression,
    annotation: Option<ast::DimensionExpression>,
    context: Seq<char>,
) -> Result<ExpressionView, Fault<ErrorView>> {
    match check(c.scope, e) {
        Err(f) => Err(f),
        Ok(t) => match check_annotation(
            c.dims,
            annotation,
            t.get_type(),
            context,
            "specified dimension"@,
            "   actual dimension"@,
        ) {
            Err(f) => Err(f),
            Ok(_) => Ok(t),
        },
    }
}

/// The dimensions of the parameters of a function. Each must be annotated with a dimension
/// expression that stands for one.
pub open spec fn parameters(
    dims: RegistryView,
    s: Seq<(String, Option<ast::DimensionExpression>)>,
) -> Option<Seq<(Seq<char>, Dim)>>
    decreases s.len(),
{
    if s.len() == 0 {
        Some(Seq::empty())
    } else {
        match (parameters(dims, s.drop_last()), s.last().1) {
            (Some(ps), Some(e)) => match represent(dims, e) {
                Ok(d) => Some(ps.push((s.last().0@, d))),
                Err(_) => None,
            },
            _ => None,
        }
    }
}

/// The dimensions of a list of parameters.
pub open spec fn parameter_types(ps: Seq<(Seq<char>, Dim)>) -> Seq<Dim> {
    ps.map_values(|p: (Seq<char>, Dim)| p.1)
}

/// The checked parameters and body of a function. The body sees the parameters, and not the
/// function itself.
pub open spec fn check_function(
    c: CheckerView,
    params: Seq<(String, Option<ast::DimensionExpression>)>,
    body: ast::Expression,
    annotation: Option<ast::DimensionExpression>,
) -> Result<(Seq<(Seq<char>, Dim)>, ExpressionView), Fault<ErrorView>> {
    match parameters(c.dims, params) {
        None => Err(Fault::Undefined),
        Some(ps) => match check(c.scope.with_parameters(ps), body) {
            Err(f) => Err(f),
            Ok(t) => match check_annotation(
                c.dims,
                annotation,
                t.get_type(),
                "function return type"@,
                "specified return type"@,
                "   actual return type"@,
            ) {
                Err(f) => Err(f),
                Ok(_) => Ok((ps, t)),
            },
        },
    }
}

/// Whether the expressions from `k` on stand for a dimension, as the first one does.
pub open spec fn check_alternatives(
    dims: RegistryView,
    name: Seq<char>,
    d: Dim,
    s: Seq<ast::DimensionExpression>,
    k: nat,
) -> Result<(), Fault<ErrorView>>
    decreases s.len() - k,
{
    if k >= s.len() {
        Ok(())
    } else {
        match lift(represent(dims, s[k as int])) {
            Err(f) => Err(f),
            Ok(x) => if x != d {
                Err(
                    Fault::Rejected(ErrorView::IncompatibleAlternativeDimensionExpression(name)),
                )
            } else {
                check_alternatives(dims, name, d, s, k + 1)
            },
        }
    }
}

/// Declares a dimension. One that is given by an expression stays declared even if a further
/// expression disagrees.
pub open spec fn declare_dimension(
    c: CheckerView,
    name: Seq<char>,
    s: Seq<ast::DimensionExpression>,
) -> (CheckerView, Result<StatementView, Fault<ErrorView>>) {
    let taken = Err(
        Fault::Rejected(ErrorView::RegistryError(RegistryErrorView::EntryExists(name))),
    );
    if s.len() == 0 {
        if c.dims.declares(name) {
            (c, taken)
        } else {
            (c.with_dims(c.dims.with_base(name)), Ok(StatementView::DeclareDimension(name)))
        }
    } else {
        match lift(represent(c.dims, s[0])) {
            Err(f) => (c, Err(f)),
            Ok(d) => if c.dims.declares(name) {
                (c, taken)
            } else {
                let dims = c.dims.with_derived(name, d);
                match check_alternatives(dims, name, d, s, 1) {
                    Err(f) => (c.with_dims(dims), Err(f)),
                    Ok(_) => (c.with_dims(dims), Ok(StatementView::DeclareDimension(name))),
                }
            },
        }
    }
}

/// What a statement declares, and the statement with the dimensions of its parts, or why it is
/// refused.
pub open spec fn check_statement(c: CheckerView, s: ast::Statement) -> (
    CheckerView,
    Result<StatementView, Fault<ErrorView>>,
) {
    match s {
        ast::Statement::Expression(e) => match check(c.scope, e) {
            Err(f) => (c, Err(f)),
            Ok(t) => (c, Ok(StatementView::Expression(t))),
        },
        ast::Statement::DeclareVariable(name, e, annotation) => match check_value(
            c,
            e,
            annotation,
            "variable declaration"@,
        ) {
            Err(f) => (c, Err(f)),
            Ok(t) => (
                c.with_scope(c.scope.with_identifier(name@, t.get_type())),
                Ok(StatementView::DeclareVariable(name@, t, t.get_type())),
            ),
        },
        ast::Statement::DeclareDerivedUnit(name, e, annotation) => match check_value(
            c,
            e,
            annotation,
            "derived unit declaration"@,
        ) {
            Err(f) => (c, Err(f)),
            Ok(t) => (
                c.with_scope(c.scope.with_identifier(name@, t.get_type())),
                Ok(StatementView::DeclareDerivedUnit(name@, t, t.get_type())),
            ),
        },
        ast::Statement::DeclareFunction(name, _, params, body, annotation) => match check_function(
            c,
            params@,
            body,
            annotation,
        ) {
            Err(f) => (c, Err(f)),
            Ok((ps, t)) => (
                c.with_scope(
                    c.scope.with_function(
                        name@,
                        SignatureView { parameters: parameter_types(ps), return_type: t.get_type() },
                    ),
                ),
                Ok(StatementView::DeclareFunction(name@, ps, t, t.get_type())),
            ),
        },
        ast::Statement::DeclareDimension(name, s) => declare_dimension(c, name@, s@),
        ast::Statement::DeclareBaseUnit(name, e) => match lift(represent(c.dims, e)) {
            Err(f) => (c, Err(f)),
            Ok(d) => (
                c.with_scope(c.scope.with_identifier(name@, d)),
                Ok(StatementView::DeclareBaseUnit(name@, d)),
            ),
        },
    }
}

/// What statements declare one after the other, up to the first that is refused, and the
/// statements with the dimensions of their parts, or why that one is refused.
pub open spec fn check_statements(c: CheckerView, s: Seq<ast::Statement>) -> (
    CheckerView,
    Result<Seq<StatementView>, Fault<ErrorView>>,
)
    decreases s.len(),
{
    if s.len() == 0 {
        (c, Ok(Seq::empty()))
    } else {
        let (before, r) = check_statements(c, s.drop_last());
        match r {
            Err(f) => (before, Err(f)),
            Ok(ts) => {
                let (after, last) = check_statement(before, s.last());
                match last {
                    Err(f) => (after, Err(f)),
                    Ok(t) => (after, Ok(ts.push(t))),
                }
            },
        }
    }
}

/// What is refused at the beginning of a list decides about the list.
pub proof fn lemma_check_list_refused(scope: Scope, s: Seq<ast::Expression>, k: int)
    requires
        0 <= k <= s.len(),
        check_list(scope, s.take(k)) is Err,
    ensures
        check_list(scope, s) == check_list(scope, s.take(k)),
    decreases s.len() - k,
{
    if k == s.len() {
        assert(s.take(k) == s);
    } else {
        assert(s.take(k + 1).drop_last() == s.take(k));
        lemma_check_list_refused(scope, s, k + 1);
    }
}

/// A refused statement decides about the statements after it.
pub proof fn lemma_check_statements_refused(c: CheckerView, s: Seq<ast::Statement>, k: int)
    requires
        0 <= k <= s.len(),
        check_statements(c, s.take(k)).1 is Err,
    ensures
        check_statements(c, s) == check_statements(c, s.take(k)),
    decreases s.len() - k,
{
    if k == s.len() {
        assert(s.take(k) == s);
    } else {
        assert(s.take(k + 1).drop_last() == s.take(k));
        lemma_check_statements_refused(c, s, k + 1);
    }
}

/// A parameter without a usable annotation decides about the parameters after it.
pub proof fn lemma_parameters_refused(
    dims: RegistryView,
    s: Seq<(String, Option<ast::DimensionExpression>)>,
    k: int,
)
    requires
        0 <= k <= s.len(),
        parameters(dims, s.take(k)) is None,
    ensures
        parameters(dims, s) is None,
    decreases s.len() - k,
{
    if k == s.len() {
        assert(s.take(k) == s);
    } else {
        assert(s.take(k + 1).drop_last() == s.take(k));
        lemma_parameters_refused(dims, s, k + 1);
    }
}

} // verus!
