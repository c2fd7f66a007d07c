//! The type checker.

use vstd::prelude::*;
use vstd::string::StringExecFns;
use crate::arithmetic::Exponent;
use crate::ast;
use crate::dim::Dim;
use crate::dimension::DimensionRegistry;
use crate::fault;
use crate::fault::Fault;
use crate::name_map;
use crate::name_map::NameMap;
use crate::registry::{BaseRepresentation, RegistryError, RegistryErrorView};
use crate::rules;
use crate::rules::{CheckerView, ErrorView, Scope, SignatureView};
use crate::typed_ast;
use crate::typed_ast::{ExpressionView, StatementView, Type};

verus! {

/// Why a program is refused.
#[derive(Debug, PartialEq, Eq)]
pub enum TypeCheckError {
    /// A name that has not been declared.
    UnknownIdentifier(String),
    /// A function that has not been declared.
    UnknownFunction(String),
    /// Two dimensions that should be the same, each with what it is the dimension of.
    IncompatibleDimensions(
        String,
        &'static str,
        BaseRepresentation,
        &'static str,
        BaseRepresentation,
    ),
    /// An exponent with a dimension.
    NonScalarExponent(BaseRepresentation),
    /// A dimension that is unknown or declared twice.
    RegistryError(RegistryError),
    /// A dimension that was declared by expressions that disagree.
    IncompatibleAlternativeDimensionExpression(String),
    /// A function, the number of its parameters, and the number of arguments in a call.
    WrongArity(String, usize, usize),
    /// What stands in an exponent and cannot be evaluated.
    UnsupportedConstExpression(&'static str),
}

impl View for TypeCheckError {
    type V = ErrorView;

    open spec fn view(&self) -> ErrorView {
        match self {
            TypeCheckError::UnknownIdentifier(name) => ErrorView::UnknownIdentifier(name@),
            TypeCheckError::UnknownFunction(name) => ErrorView::UnknownFunction(name@),
            TypeCheckError::IncompatibleDimensions(context, label1, d1, label2, d2) => {
                ErrorView::IncompatibleDimensions(context@, label1@, d1@, label2@, d2@)
            },
            TypeCheckError::NonScalarExponent(d) => ErrorView::NonScalarExponent(d@),
            TypeCheckError::RegistryError(e) => ErrorView::RegistryError(e@),
            TypeCheckError::IncompatibleAlternativeDimensionExpression(name) => {
                ErrorView::IncompatibleAlternativeDimensionExpression(name@)
            },
            TypeCheckError::WrongArity(name, expected, actual) => ErrorView::WrongArity(
                name@,
                *expected as nat,
                *actual as nat,
            ),
            TypeCheckError::UnsupportedConstExpression(what) => {
                ErrorView::UnsupportedConstExpression(what@)
            },
        }
    }
}

/// Evaluates the expressions that may stand in an exponent of a dimension, if they have a
/// meaning.
pub fn try_evaluate_const_expr(expr: &typed_ast::Expression) -> (r: Result<
    Exponent,
    Fault<TypeCheckError>,
>)
    ensures
        fault::outcome(r) == rules::const_value(expr@),
    decreases expr,
{
    match expr {
        typed_ast::Expression::Scalar(n) => match n.exponent {
            Some(e) => Ok(e),
            None => Err(Fault::Undefined),
        },
        typed_ast::Expression::Negate(expr, _) => {
            match try_evaluate_const_expr(expr)?.checked_neg() {
                Some(e) => Ok(e),
                None => Err(Fault::Undefined),
            }
        },
        typed_ast::Expression::BinaryOperator(op, lhs_expr, rhs_expr, _) => {
            let lhs = try_evaluate_const_expr(lhs_expr)?;
            let rhs = try_evaluate_const_expr(rhs_expr)?;
            let value = match op {
                ast::BinaryOperator::Add => lhs.checked_add(rhs),
                ast::BinaryOperator::Sub => lhs.checked_sub(rhs),
                ast::BinaryOperator::Mul => lhs.checked_mul(rhs),
                ast::BinaryOperator::Div => lhs.checked_div(rhs),
                ast::BinaryOperator::Power => {
                    return Err(
                        Fault::Rejected(
                            TypeCheckError::UnsupportedConstExpression("exponentiation"),
                        ),
                    );
                },
                ast::BinaryOperator::ConvertTo => {
                    return Err(
                        Fault::Rejected(TypeCheckError::UnsupportedConstExpression("conversion")),
                    );
                },
            };
            match value {
                Some(e) => Ok(e),
                None => Err(Fault::Undefined),
            }
        },
        typed_ast::Expression::Identifier(_, _) => Err(
            Fault::Rejected(TypeCheckError::UnsupportedConstExpression("identifier")),
        ),
        typed_ast::Expression::FunctionCall(_, _, _) => Err(
            Fault::Rejected(TypeCheckError::UnsupportedConstExpression("function call")),
        ),
    }
}

/// Evaluates a limited set of expressions before a program runs. This is needed to check
/// expressions like `(2 * meter)^(2*3 - 4)`, where not just the type but also the value of the
/// exponent counts.
pub fn evaluate_const_expr(expr: &typed_ast::Expression) -> (r: Result<Exponent, TypeCheckError>)
    requires
        fault::is_defined(rules::const_value(expr@)),
    ensures
        fault::verdict(r) == rules::const_value(expr@),
{
    match try_evaluate_const_expr(expr) {
        Ok(e) => Ok(e),
        Err(Fault::Rejected(e)) => Err(e),
        Err(Fault::Undefined) => vstd::pervasive::unreached(),
    }
}

/// One decimal digit.
fn digit(d: usize) -> (s: &'static str)
    requires
        d < 10,
    ensures
        s@ == rules::decimal(d as nat),
{
    proof {
        reveal_strlit("0");
        reveal_strlit("1");
        reveal_strlit("2");
        reveal_strlit("3");
        reveal_strlit("4");
        reveal_strlit("5");
        reveal_strlit("6");
        reveal_strlit("7");
        reveal_strlit("8");
        reveal_strlit("9");
    }
    let s = if d == 0 {
        "0"
    } else if d == 1 {
        "1"
    } else if d == 2 {
        "2"
    } else if d == 3 {
        "3"
    } else if d == 4 {
        "4"
    } else if d == 5 {
        "5"
    } else if d == 6 {
        "6"
    } else if d == 7 {
        "7"
    } else if d == 8 {
        "8"
    } else {
        "9"
    };
    assert(s@ =~= rules::decimal(d as nat));
    s
}

/// Appends the decimal digits of a number to a text.
fn append_decimal(text: &mut String, n: usize)
    ensures
        final(text)@ == old(text)@ + rules::decimal(n as nat),
    decreases n,
{
    if n >= 10 {
        append_decimal(text, n / 10);
    }
    text.append(digit(n % 10));
    proof {
        let d = rules::decimal((n % 10) as nat);
        assert(text@ =~= old(text)@ + rules::decimal(n as nat));
    }
}

/// How an error message names an argument, counted from one.
fn argument_label(number: usize, function: &String) -> (s: String)
    ensures
        s@ == rules::argument_label(number as nat, function@),
{
    let mut s = "argument ".to_owned();
    append_decimal(&mut s, number);
    s.append(" of function call to '");
    s.append(function.as_str());
    s.append("'");
    s
}

/// The types of the parameters of a function and of its result.
#[derive(Debug)]
pub struct Signature {
    pub(crate) parameters: Vec<Type>,
    pub(crate) return_type: Type,
}

/// The dimensions of a list of types.
pub open spec fn type_views(s: Seq<Type>) -> Seq<Dim> {
    s.map_values(|t: Type| t@)
}

impl View for Signature {
    type V = SignatureView;

    open(crate) spec fn view(&self) -> SignatureView {
        SignatureView { parameters: type_views(self.parameters@), return_type: self.return_type@ }
    }
}

impl Clone for Signature {
    fn clone(&self) -> (r: Self)
        ensures
            r@ == self@,
    {
        let r = Signature {
            parameters: self.parameters.clone(),
            return_type: self.return_type.clone(),
        };
        assert(r@.parameters =~= self@.parameters);
        r
    }
}

/// Checks statements one after the other and keeps what they declare.
#[derive(Debug)]
pub struct TypeChecker {
    pub(crate) types_for_identifier: NameMap<Type>,
    pub(crate) function_signatures: NameMap<Signature>,
    pub(crate) registry: DimensionRegistry,
}

impl View for TypeChecker {
    type V = CheckerView;

    open(crate) spec fn view(&self) -> CheckerView {
        CheckerView {
            scope: Scope {
                identifiers: self.types_for_identifier@,
                functions: self.function_signatures@,
            },
            dims: self.registry@,
        }
    }
}

impl Clone for TypeChecker {
    fn clone(&self) -> (r: Self)
        ensures
            r@ == self@,
    {
        let r = TypeChecker {
            types_for_identifier: self.types_for_identifier.clone(),
            function_signatures: self.function_signatures.clone(),
            registry: self.registry.clone(),
        };
        proof {
            name_map::lemma_same_entries(
                r.types_for_identifier.entries@,
                self.types_for_identifier.entries@,
            );
            name_map::lemma_same_entries(
                r.function_signatures.entries@,
                self.function_signatures.entries@,
            );
        }
        r
    }
}

impl Default for TypeChecker {
    /// A checker to which nothing has been declared.
    fn default() -> (r: Self)
        ensures
            r@ == CheckerView::empty(),
    {
        TypeChecker {
            types_for_identifier: NameMap::new(),
            function_signatures: NameMap::new(),
            registry: DimensionRegistry::new(),
        }
    }
}

/// The type that two expressions share.
fn get_type_and_assert_equality(
    lhs: &typed_ast::Expression,
    rhs: &typed_ast::Expression,
) -> (r: Result<Type, Fault<TypeCheckError>>)
    ensures
        fault::outcome(r) == rules::common_type(lhs@.get_type(), rhs@.get_type()),
{
    let lhs_type = lhs.get_type();
    let rhs_type = rhs.get_type();
    if lhs_type == rhs_type {
        Ok(lhs_type)
    } else {
        Err(
            Fault::Rejected(
                TypeCheckError::IncompatibleDimensions(
                    "binary operator".to_owned(),
                    " left hand side",
                    lhs_type,
                    "right hand side",
                    rhs_type,
                ),
            ),
        )
    }
}

/// The type of the result of a binary operator.
fn operator_type(
    op: ast::BinaryOperator,
    lhs: &typed_ast::Expression,
    rhs: &typed_ast::Expression,
) -> (r: Result<Type, Fault<TypeCheckError>>)
    ensures
        fault::outcome(r) == rules::operator_type(op, lhs@, rhs@),
{
    let computed = match op {
        ast::BinaryOperator::Add => {
            return get_type_and_assert_equality(lhs, rhs);
        },
        ast::BinaryOperator::Sub => {
            return get_type_and_assert_equality(lhs, rhs);
        },
        ast::BinaryOperator::Mul => lhs.get_type().checked_multiply(&rhs.get_type()),
        ast::BinaryOperator::Div => lhs.get_type().checked_divide(&rhs.get_type()),
        ast::BinaryOperator::Power => {
            let exponent_type = rhs.get_type();
            if !(exponent_type == Type::unity()) {
                return Err(Fault::Rejected(TypeCheckError::NonScalarExponent(exponent_type)));
            }
            let base_type = lhs.get_type();
            if base_type == Type::unity() {
                // The exponent is not evaluated if the base is a plain number. This allows for
                // arbitrary exponents in that case.
                return Ok(base_type);
            }
            let exponent = try_evaluate_const_expr(rhs)?;
            base_type.checked_power(exponent)
        },
        ast::BinaryOperator::ConvertTo => {
            return get_type_and_assert_equality(lhs, rhs);
        },
    };
    match computed {
        Some(t) => Ok(t),
        None => Err(Fault::Undefined),
    }
}

/// The type of a call with checked arguments, as many as the function has parameters.
fn call_type(
    name: &String,
    signature: &Signature,
    arguments: &Vec<typed_ast::Expression>,
) -> (r: Result<Type, Fault<TypeCheckError>>)
    requires
        signature@.parameters.len() == arguments@.len(),
    ensures
        fault::outcome(r) == rules::call_type(
            name@,
            signature@,
            typed_ast::expression_views(arguments@),
        ),
{
    let ghost views = typed_ast::expression_views(arguments@);
    let ghost types = signature@.parameters;
    proof {
        typed_ast::lemma_expression_views(arguments@);
    }
    let mut k: usize = 0;
    while k < arguments.len()
        invariant
            k <= arguments@.len(),
            types == type_views(signature.parameters@),
            types == signature@.parameters,
            types.len() == arguments@.len(),
            views == typed_ast::expression_views(arguments@),
            views.len() == arguments@.len(),
            forall|i: int| 0 <= i < views.len() ==> #[trigger] views[i] == arguments@[i]@,
            rules::first_mismatch(types, views, 0) == rules::first_mismatch(types, views, k as nat),
        decreases arguments@.len() - k,
    {
        let parameter_type = &signature.parameters[k];
        let argument_type = arguments[k].get_type();
        assert(views[k as int] == arguments@[k as int]@);
        if !(*parameter_type == argument_type) {
            return Err(
                Fault::Rejected(
                    TypeCheckError::IncompatibleDimensions(
                        argument_label(k + 1, name),
                        "parameter type",
                        parameter_type.clone(),
                        " argument type",
                        argument_type,
                    ),
                ),
            );
        }
        k = k + 1;
    }
    Ok(signature.return_type.clone())
}

impl TypeChecker {
    /// The type of a variable or a unit.
    fn type_for_identifier(&self, name: &String) -> (r: Result<&Type, TypeCheckError>)
        ensures
            match r {
                Ok(t) => {
                    &&& self@.scope.identifiers.contains_key(name@)
                    &&& t@ == self@.scope.identifiers[name@]
                },
                Err(e) => {
                    &&& !self@.scope.identifiers.contains_key(name@)
                    &&& e@ == ErrorView::UnknownIdentifier(name@)
                },
            },
    {
        match self.types_for_identifier.get(name) {
            Some(t) => Ok(t),
            None => Err(TypeCheckError::UnknownIdentifier(name.clone())),
        }
    }

    /// An expression with the types of its parts, if it has a meaning.
    pub fn try_check_expression(&self, ast: &ast::Expression) -> (r: Result<
        typed_ast::Expression,
        Fault<TypeCheckError>,
    >)
        ensures
            fault::outcome(r) == rules::check(self@.scope, *ast),
        decreases ast,
    {
        match ast {
            ast::Expression::Scalar(n) => Ok(typed_ast::Expression::Scalar(*n)),
            ast::Expression::Identifier(name) => match self.type_for_identifier(name) {
                Ok(t) => Ok(typed_ast::Expression::Identifier(name.clone(), t.clone())),
                Err(e) => Err(Fault::Rejected(e)),
            },
            ast::Expression::Negate(expr) => {
                let checked_expr = self.try_check_expression(expr)?;
                let type_ = checked_expr.get_type();
                Ok(typed_ast::Expression::Negate(Box::new(checked_expr), type_))
            },
            ast::Expression::BinaryOperator(op, lhs, rhs) => {
                let lhs = self.try_check_expression(lhs)?;
                let rhs = self.try_check_expression(rhs)?;
                let type_ = operator_type(*op, &lhs, &rhs)?;
                Ok(
                    typed_ast::Expression::BinaryOperator(
                        *op,
                        Box::new(lhs),
                        Box::new(rhs),
                        type_,
                    ),
                )
            },
            ast::Expression::FunctionCall(function_name, args) => {
                let signature = match self.function_signatures.get(function_name) {
                    Some(s) => s,
                    None => {
                        return Err(
                            Fault::Rejected(TypeCheckError::UnknownFunction(function_name.clone())),
                        );
                    },
                };
                if signature.parameters.len() != args.len() {
                    return Err(
                        Fault::Rejected(
                            TypeCheckError::WrongArity(
                                function_name.clone(),
                                signature.parameters.len(),
                                args.len(),
                            ),
                        ),
                    );
                }
                let arguments_checked = self.check_arguments(args)?;
                let type_ = call_type(function_name, signature, &arguments_checked)?;
                Ok(
                    typed_ast::Expression::FunctionCall(
                        function_name.clone(),
                        arguments_checked,
                        type_,
                    ),
                )
            },
        }
    }

    /// Expressions with the types of their parts, if they have a meaning.
    fn check_arguments(&self, args: &Vec<ast::Expression>) -> (r: Result<
        Vec<typed_ast::Expression>,
        Fault<TypeCheckError>,
    >)
        ensures
            match r {
                Ok(ts) => {
                    &&& rules::check_list(self@.scope, args@) == Ok::<
                        Seq<ExpressionView>,
                        Fault<ErrorView>,
                    >(typed_ast::expression_views(ts@))
                    &&& ts@.len() == args@.len()
                },
                Err(f) => rules::check_list(self@.scope, args@) == Err::<
                    Seq<ExpressionView>,
                    Fault<ErrorView>,
                >(f@),
            },
        decreases args,
    {
        let mut checked: Vec<typed_ast::Expression> = Vec::new();
        let mut k: usize = 0;
        while k < args.len()
            invariant
                k <= args@.len(),
                checked@.len() == k,
                rules::check_list(self@.scope, args@.take(k as int)) == Ok::<
                    Seq<ExpressionView>,
                    Fault<ErrorView>,
                >(typed_ast::expression_views(checked@)),
            decreases args@.len() - k,
        {
            let ghost before = checked@;
            assert(args@.take(k + 1).drop_last() == args@.take(k as int));
            assert(args@.take(k + 1).last() == args@[k as int]);
            match self.try_check_expression(&args[k]) {
                Ok(t) => {
                    checked.push(t);
                    assert(checked@.drop_last() == before);
                },
                Err(f) => {
                    proof {
                        rules::lemma_check_list_refused(self@.scope, args@, k + 1);
                    }
                    return Err(f);
                },
            }
            k = k + 1;
        }
        assert(args@.take(k as int) == args@);
        Ok(checked)
    }

    /// An expression with the types of its parts.
    pub fn check_expression(&self, ast: ast::Expression) -> (r: Result<
        typed_ast::Expression,
        TypeCheckError,
    >)
        requires
            fault::is_defined(rules::check(self@.scope, ast)),
        ensures
            fault::verdict(r) == rules::check(self@.scope, ast),
    {
        match self.try_check_expression(&ast) {
            Ok(t) => Ok(t),
            Err(Fault::Rejected(e)) => Err(e),
            Err(Fault::Undefined) => vstd::pervasive::unreached(),
        }
    }

    /// What a dimension expression stands for.
    fn represent(&self, dexpr: &ast::DimensionExpression) -> (r: Result<
        Type,
        Fault<TypeCheckError>,
    >)
        ensures
            fault::outcome(r) == rules::lift(rules::represent(self@.dims, *dexpr)),
    {
        match self.registry.try_get_base_representation(dexpr) {
            Ok(t) => Ok(t),
            Err(Fault::Rejected(e)) => Err(Fault::Rejected(TypeCheckError::RegistryError(e))),
            Err(Fault::Undefined) => Err(Fault::Undefined),
        }
    }

    /// Holds a deduced type against an annotation, if there is one.
    fn check_annotation(
        &self,
        optional_dexpr: &Option<ast::DimensionExpression>,
        type_deduced: &Type,
        context: &'static str,
        specified_label: &'static str,
        actual_label: &'static str,
    ) -> (r: Result<(), Fault<TypeCheckError>>)
        ensures
            ({
                let verdict = rules::check_annotation(
                    self@.dims,
                    *optional_dexpr,
                    type_deduced@,
                    context@,
                    specified_label@,
                    actual_label@,
                );
                match r {
                    Ok(_) => verdict is Ok,
                    Err(f) => verdict == Err::<(), Fault<ErrorView>>(f@),
                }
            }),
    {
        if let Some(dexpr) = optional_dexpr {
            let type_specified = self.represent(dexpr)?;
            if !(*type_deduced == type_specified) {
                return Err(
                    Fault::Rejected(
                        TypeCheckError::IncompatibleDimensions(
                            context.to_owned(),
                            specified_label,
                            type_specified,
                            actual_label,
                            type_deduced.clone(),
                        ),
                    ),
                );
            }
        }
        Ok(())
    }

    /// The value of a variable or a unit with the types of its parts.
    fn check_value(
        &self,
        expr: &ast::Expression,
        optional_dexpr: &Option<ast::DimensionExpression>,
        context: &'static str,
    ) -> (r: Result<typed_ast::Expression, Fault<TypeCheckError>>)
        ensures
            fault::outcome(r) == rules::check_value(self@, *expr, *optional_dexpr, context@),
    {
        let expr = self.try_check_expression(expr)?;
        self.check_annotation(
            optional_dexpr,
            &expr.get_type(),
            context,
            "specified dimension",
            "   actual dimension",
        )?;
        Ok(expr)
    }

    /// The parameters of a function with their types, and the body with the types of its parts.
    fn check_function(
        &self,
        parameters: &Vec<(String, Option<ast::DimensionExpression>)>,
        expr: &ast::Expression,
        optional_return_type_dexpr: &Option<ast::DimensionExpression>,
    ) -> (r: Result<(Vec<(String, Type)>, typed_ast::Expression), Fault<TypeCheckError>>)
        ensures
            ({
                let verdict = rules::check_function(
                    self@,
                    parameters@,
                    *expr,
                    *optional_return_type_dexpr,
                );
                match r {
                    Ok((ps, t)) => verdict == Ok::<
                        (Seq<(Seq<char>, Dim)>, ExpressionView),
                        Fault<ErrorView>,
                    >((typed_ast::parameter_views(ps@), t@)),
                    Err(f) => verdict == Err::<
                        (Seq<(Seq<char>, Dim)>, ExpressionView),
                        Fault<ErrorView>,
                    >(f@),
                }
            }),
    {
        let mut typechecker_fn = self.clone();
        let mut typed_parameters: Vec<(String, Type)> = Vec::new();
        assert(typed_ast::parameter_views(typed_parameters@) =~= Seq::empty());
        let mut k: usize = 0;
        while k < parameters.len()
            invariant
                k <= parameters@.len(),
                rules::parameters(self@.dims, parameters@.take(k as int)) == Some(
                    typed_ast::parameter_views(typed_parameters@),
                ),
                typechecker_fn@ == self@.with_scope(
                    self@.scope.with_parameters(typed_ast::parameter_views(typed_parameters@)),
                ),
            decreases parameters@.len() - k,
        {
            let ghost before = typed_parameters@;
            assert(parameters@.take(k + 1).drop_last() == parameters@.take(k as int));
            assert(parameters@.take(k + 1).last() == parameters@[k as int]);
            let parameter = &parameters[k].0;
            let parameter_type = match &parameters[k].1 {
                None => {
                    proof {
                        rules::lemma_parameters_refused(self@.dims, parameters@, k + 1);
                    }
                    return Err(Fault::Undefined);
                },
                Some(dexpr) => match typechecker_fn.represent(dexpr) {
                    Ok(t) => t,
                    Err(_) => {
                        proof {
                            rules::lemma_parameters_refused(self@.dims, parameters@, k + 1);
                        }
                        return Err(Fault::Undefined);
                    },
                },
            };
            typechecker_fn.types_for_identifier.insert(parameter.clone(), parameter_type.clone());
            typed_parameters.push((parameter.clone(), parameter_type));
            k = k + 1;
            proof {
                let after = typed_ast::parameter_views(typed_parameters@);
                let added = (parameter@, parameter_type@);
                assert(after =~= typed_ast::parameter_views(before).push(added));
                assert(after.drop_last() =~= typed_ast::parameter_views(before));
            }
        }
        assert(parameters@.take(k as int) == parameters@);
        let expr = typechecker_fn.try_check_expression(expr)?;
        typechecker_fn.check_annotation(
            optional_return_type_dexpr,
            &expr.get_type(),
            "function return type",
            "specified return type",
            "   actual return type",
        )?;
        Ok((typed_parameters, expr))
    }

    /// Declares a dimension by the expressions that it equals.
    fn declare_dimension(
        &mut self,
        name: &String,
        dexprs: &Vec<ast::DimensionExpression>,
    ) -> (r: Result<typed_ast::Statement, Fault<TypeCheckError>>)
        ensures
            ({
                let (after, verdict) = rules::declare_dimension(old(self)@, name@, dexprs@);
                final(self)@ == after && fault::outcome(r) == verdict
            }),
    {
        if dexprs.len() == 0 {
            match self.registry.add_base_dimension(name) {
                Ok(_) => {},
                Err(e) => {
                    return Err(Fault::Rejected(TypeCheckError::RegistryError(e)));
                },
            }
        } else {
            match self.registry.try_add_derived_dimension(name, &dexprs[0]) {
                Ok(_) => {},
                Err(Fault::Rejected(e)) => {
                    return Err(Fault::Rejected(TypeCheckError::RegistryError(e)));
                },
                Err(Fault::Undefined) => {
                    return Err(Fault::Undefined);
                },
            }
            let base_representation = match self.registry.get_base_representation_for_name(name) {
                Ok(d) => d,
                Err(_) => vstd::pervasive::unreached(),
            };
            let ghost d = base_representation@;
            let mut k: usize = 1;
            while k < dexprs.len()
                invariant
                    1 <= k <= dexprs@.len(),
                    d == base_representation@,
                    rules::represent(old(self)@.dims, dexprs@[0]) == Ok::<
                        Dim,
                        Fault<RegistryErrorView>,
                    >(d),
                    !old(self)@.dims.declares(name@),
                    self@ == old(self)@.with_dims(old(self)@.dims.with_derived(name@, d)),
                    rules::check_alternatives(self@.dims, name@, d, dexprs@, 1)
                        == rules::check_alternatives(self@.dims, name@, d, dexprs@, k as nat),
                decreases dexprs@.len() - k,
            {
                let alternative_base_representation = self.represent(&dexprs[k])?;
                if !(alternative_base_representation == base_representation) {
                    return Err(
                        Fault::Rejected(
                            TypeCheckError::IncompatibleAlternativeDimensionExpression(
                                name.clone(),
                            ),
                        ),
                    );
                }
                k = k + 1;
            }
        }
        Ok(typed_ast::Statement::DeclareDimension(name.clone()))
    }

    /// Checks a statement and keeps what it declares, if it has a meaning.
    pub fn try_check_statement(&mut self, ast: &ast::Statement) -> (r: Result<
        typed_ast::Statement,
        Fault<TypeCheckError>,
    >)
        ensures
            ({
                let (after, verdict) = rules::check_statement(old(self)@, *ast);
                final(self)@ == after && fault::outcome(r) == verdict
            }),
    {
        match ast {
            ast::Statement::Expression(expr) => Ok(
                typed_ast::Statement::Expression(self.try_check_expression(expr)?),
            ),
            ast::Statement::DeclareVariable(name, expr, optional_dexpr) => {
                let expr = self.check_value(expr, optional_dexpr, "variable declaration")?;
                let type_deduced = expr.get_type();
                self.types_for_identifier.insert(name.clone(), type_deduced.clone());
                Ok(typed_ast::Statement::DeclareVariable(name.clone(), expr, type_deduced))
            },
            ast::Statement::DeclareDerivedUnit(name, expr, optional_dexpr) => {
                let expr = self.check_value(expr, optional_dexpr, "derived unit declaration")?;
                let type_deduced = expr.get_type();
                self.types_for_identifier.insert(name.clone(), type_deduced.clone());
                Ok(typed_ast::Statement::DeclareDerivedUnit(name.clone(), expr, type_deduced))
            },
            ast::Statement::DeclareFunction(
                function_name,
                _type_parameters,
                parameters,
                expr,
                optional_return_type_dexpr,
            ) => {
                let (typed_parameters, expr) = self.check_function(
                    parameters,
                    expr,
                    optional_return_type_dexpr,
                )?;
                let return_type = expr.get_type();
                let parameter_types = types_of(&typed_parameters);
                self.function_signatures.insert(
                    function_name.clone(),
                    Signature { parameters: parameter_types, return_type: return_type.clone() },
                );
                Ok(
                    typed_ast::Statement::DeclareFunction(
                        function_name.clone(),
                        typed_parameters,
                        expr,
                        return_type,
                    ),
                )
            },
            ast::Statement::DeclareDimension(name, dexprs) => self.declare_dimension(name, dexprs),
            ast::Statement::DeclareBaseUnit(name, dexpr) => {
                let type_specified = self.represent(dexpr)?;
                self.types_for_identifier.insert(name.clone(), type_specified.clone());
                Ok(typed_ast::Statement::DeclareBaseUnit(name.clone(), type_specified))
            },
        }
    }

    /// Checks a statement and keeps what it declares.
    pub fn check_statement(&mut self, ast: ast::Statement) -> (r: Result<
        typed_ast::Statement,
        TypeCheckError,
    >)
        requires
            fault::is_defined(rules::check_statement(old(self)@, ast).1),
        ensures
            ({
                let (after, verdict) = rules::check_statement(old(self)@, ast);
                final(self)@ == after && fault::verdict(r) == verdict
            }),
    {
        match self.try_check_statement(&ast) {
            Ok(t) => Ok(t),
            Err(Fault::Rejected(e)) => Err(e),
            Err(Fault::Undefined) => vstd::pervasive::unreached(),
        }
    }

    /// Checks statements, up to the first that is refused, and keeps what they declare, if they
    /// have a meaning.
    pub fn try_check_statements(&mut self, statements: &Vec<ast::Statement>) -> (r: Result<
        Vec<typed_ast::Statement>,
        Fault<TypeCheckError>,
    >)
        ensures
            ({
                let (after, verdict) = rules::check_statements(old(self)@, statements@);
                &&& final(self)@ == after
                &&& match r {
                    Ok(ts) => verdict == Ok::<Seq<StatementView>, Fault<ErrorView>>(
                        statement_views(ts@),
                    ),
                    Err(f) => verdict == Err::<Seq<StatementView>, Fault<ErrorView>>(f@),
                }
            }),
    {
        let mut statements_checked: Vec<typed_ast::Statement> = Vec::new();
        assert(statement_views(statements_checked@) =~= Seq::empty());
        let mut k: usize = 0;
        while k < statements.len()
            invariant
                k <= statements@.len(),
                rules::check_statements(old(self)@, statements@.take(k as int)) == (
                    self@,
                    Ok::<Seq<StatementView>, Fault<ErrorView>>(
                        statement_views(statements_checked@),
                    ),
                ),
            decreases statements@.len() - k,
        {
            let ghost before = statements_checked@;
            assert(statements@.take(k + 1).drop_last() == statements@.take(k as int));
            assert(statements@.take(k + 1).last() == statements@[k as int]);
            match self.try_check_statement(&statements[k]) {
                Ok(t) => {
                    statements_checked.push(t);
                    assert(statement_views(statements_checked@) =~= statement_views(before).push(
                        t@,
                    ));
                },
                Err(f) => {
                    proof {
                        rules::lemma_check_statements_refused(old(self)@, statements@, k + 1);
                    }
                    return Err(f);
                },
            }
            k = k + 1;
        }
        assert(statements@.take(k as int) == statements@);
        Ok(statements_checked)
    }

    /// Checks statements, up to the first that is refused, and keeps what they declare.
    pub fn check_statements(&mut self, statements: Vec<ast::Statement>) -> (r: Result<
        Vec<typed_ast::Statement>,
        TypeCheckError,
    >)
        requires
            fault::is_defined(rules::check_statements(old(self)@, statements@).1),
        ensures
            ({
                let (after, verdict) = rules::check_statements(old(self)@, statements@);
                &&& final(self)@ == after
                &&& match r {
                    Ok(ts) => verdict == Ok::<Seq<StatementView>, Fault<ErrorView>>(
                        statement_views(ts@),
                    ),
                    Err(e) => verdict == Err::<Seq<StatementView>, Fault<ErrorView>>(
                        Fault::Rejected(e@),
                    ),
                }
            }),
    {
        match self.try_check_statements(&statements) {
            Ok(ts) => Ok(ts),
            Err(Fault::Rejected(e)) => Err(e),
            Err(Fault::Undefined) => vstd::pervasive::unreached(),
        }
    }
}

/// The types of a list of parameters.
fn types_of(parameters: &Vec<(String, Type)>) -> (r: Vec<Type>)
    ensures
        type_views(r@) == rules::parameter_types(typed_ast::parameter_views(parameters@)),
{
    let mut types: Vec<Type> = Vec::new();
    let mut k: usize = 0;
    while k < parameters.len()
        invariant
            k <= parameters@.len(),
            types@.len() == k,
            forall|i: int| 0 <= i < k ==> (#[trigger] types@[i])@ == parameters@[i].1@,
        decreases parameters@.len() - k,
    {
        types.push(parameters[k].1.clone());
        k = k + 1;
    }
    assert(type_views(types@) =~= rules::parameter_types(
        typed_ast::parameter_views(parameters@),
    ));
    types
}

/// The mathematical content of a list of statements.
pub open spec fn statement_views(s: Seq<typed_ast::Statement>) -> Seq<StatementView> {
    s.map_values(|t: typed_ast::Statement| t@)
}

/// Checks a program, if it has a meaning.
pub fn try_typecheck(statements: &Vec<ast::Statement>) -> (r: Result<
    Vec<typed_ast::Statement>,
    Fault<TypeCheckError>,
>)
    ensures
        ({
            let verdict = rules::check_statements(CheckerView::empty(), statements@).1;
            match r {
                Ok(ts) => verdict == Ok::<Seq<StatementView>, Fault<ErrorView>>(
                    statement_views(ts@),
                ),
                Err(f) => verdict == Err::<Seq<StatementView>, Fault<ErrorView>>(f@),
            }
        }),
{
    let mut typechecker = TypeChecker::default();
    typechecker.try_check_statements(statements)
}

/// Checks a program.
pub fn typecheck(statements: Vec<ast::Statement>) -> (r: Result<
    Vec<typed_ast::Statement>,
    TypeCheckError,
>)
    requires
        fault::is_defined(rules::check_statements(CheckerView::empty(), statements@).1),
    ensures
        ({
            let verdict = rules::check_statements(CheckerView::empty(), statements@).1;
            match r {
                Ok(ts) => verdict == Ok::<Seq<StatementView>, Fault<ErrorView>>(
                    statement_views(ts@),
                ),
                Err(e) => verdict == Err::<Seq<StatementView>, Fault<ErrorView>>(
                    Fault::Rejected(e@),
                ),
            }
        }),
{
    let mut typechecker = TypeChecker::default();
    typechecker.check_statements(statements)
}

/// A refusal says what it is about: its names, labels, dimensions and numbers in their places.
pub proof fn law_content_of_error(e: TypeCheckError)
    ensures
        match e {
            TypeCheckError::UnknownIdentifier(name) => e@ == ErrorView::UnknownIdentifier(name@),
            TypeCheckError::UnknownFunction(name) => e@ == ErrorView::UnknownFunction(name@),
            TypeCheckError::IncompatibleDimensions(context, label1, d1, label2, d2) => e@
                == ErrorView::IncompatibleDimensions(context@, label1@, d1@, label2@, d2@),
            TypeCheckError::NonScalarExponent(d) => e@ == ErrorView::NonScalarExponent(d@),
            TypeCheckError::RegistryError(f) => e@ == ErrorView::RegistryError(f@),
            TypeCheckError::IncompatibleAlternativeDimensionExpression(name) => e@
                == ErrorView::IncompatibleAlternativeDimensionExpression(name@),
            TypeCheckError::WrongArity(name, expected, actual) => e@ == ErrorView::WrongArity(
                name@,
                expected as nat,
                actual as nat,
            ),
            TypeCheckError::UnsupportedConstExpression(what) => e@
                == ErrorView::UnsupportedConstExpression(what@),
        },
{
}

/// A list of typed statements holds them one by one.
pub proof fn law_content_of_statements(s: Seq<typed_ast::Statement>)
    ensures
        statement_views(s).len() == s.len(),
        forall|i: int| 0 <= i < s.len() ==> #[trigger] statement_views(s)[i] == s[i]@,
{
}

} // verus!
