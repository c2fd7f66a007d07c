//! What holds of the type checker as a whole.

use vstd::prelude::*;
use crate::arithmetic;
use crate::ast;
use crate::dim;
use crate::dim::Dim;
use crate::fault::Fault;
use crate::ratio;
use crate::ratio::Ratio;
use crate::registry;
use crate::registry::{RegistryErrorView, RegistryView};
use crate::rules;
use crate::rules::{CheckerView, ErrorView, Scope, SignatureView};
use crate::typed_ast::{ExpressionView, StatementView};

verus! {

/// Whether a typed expression is an expression with types added to it.
pub open spec fn annotates(t: ExpressionView, e: ast::Expression) -> bool
    decreases e,
{
    match (t, e) {
        (ExpressionView::Scalar(n), ast::Expression::Scalar(m)) => n == m,
        (ExpressionView::Identifier(a, _), ast::Expression::Identifier(b)) => a == b@,
        (ExpressionView::Negate(x, _), ast::Expression::Negate(y)) => annotates(*x, *y),
        (
            ExpressionView::BinaryOperator(op, x, y, _),
            ast::Expression::BinaryOperator(op2, x2, y2),
        ) => op == op2 && annotates(*x, *x2) && annotates(*y, *y2),
        (ExpressionView::FunctionCall(a, xs, _), ast::Expression::FunctionCall(b, ys)) => a == b@
            && annotates_list(xs, ys@),
        _ => false,
    }
}

/// Whether typed expressions are expressions with types added to them.
pub open spec fn annotates_list(ts: Seq<ExpressionView>, es: Seq<ast::Expression>) -> bool
    decreases es,
{
    if es.len() == 0 {
        ts.len() == 0
    } else {
        &&& ts.len() == es.len()
        &&& annotates_list(ts.drop_last(), es.drop_last())
        &&& annotates(ts.last(), es.last())
    }
}

/// When `d` is the dimension of a binary operator applied to two operands.
pub open spec fn operator_has_type(
    op: ast::BinaryOperator,
    lhs: ExpressionView,
    rhs: ExpressionView,
    d: Dim,
) -> bool {
    let (l, r) = (lhs.get_type(), rhs.get_type());
    match op {
        ast::BinaryOperator::Add | ast::BinaryOperator::Sub | ast::BinaryOperator::ConvertTo => l
            == d && r == d,
        ast::BinaryOperator::Mul => registry::product_fits(l, r) && d == dim::product(l, r),
        ast::BinaryOperator::Div => registry::quotient_fits(l, r) && d == dim::quotient(l, r),
        ast::BinaryOperator::Power => {
            &&& r == dim::unity()
            &&& if l == dim::unity() {
                d == dim::unity()
            } else {
                &&& rules::const_value(rhs) matches Ok(v)
                &&& registry::power_fits(l, v)
                &&& d == dim::power(l, v)
            }
        },
    }
}

/// Whether the types in an expression are right.
pub open spec fn well_typed(scope: Scope, t: ExpressionView) -> bool
    decreases t,
{
    match t {
        ExpressionView::Scalar(_) => true,
        ExpressionView::Identifier(name, d) => scope.identifiers.contains_key(name)
            && scope.identifiers[name] == d,
        ExpressionView::Negate(x, d) => well_typed(scope, *x) && x.get_type() == d,
        ExpressionView::BinaryOperator(op, x, y, d) => {
            &&& well_typed(scope, *x)
            &&& well_typed(scope, *y)
            &&& operator_has_type(op, *x, *y, d)
        },
        ExpressionView::FunctionCall(name, args, d) => {
            &&& scope.functions.contains_key(name)
            &&& scope.functions[name].parameters.len() == args.len()
            &&& scope.functions[name].return_type == d
            &&& forall|i: int|
                0 <= i < args.len() ==> #[trigger] args[i].get_type()
                    == scope.functions[name].parameters[i]
            &&& well_typed_list(scope, args)
        },
    }
}

/// Whether the types in expressions are right.
pub open spec fn well_typed_list(scope: Scope, ts: Seq<ExpressionView>) -> bool
    decreases ts,
{
    if ts.len() == 0 {
        true
    } else {
        well_typed_list(scope, ts.drop_last()) && well_typed(scope, ts.last())
    }
}

proof fn lemma_first_mismatch(parameters: Seq<Dim>, arguments: Seq<ExpressionView>, k: nat)
    requires
        parameters.len() == arguments.len(),
    ensures
        rules::first_mismatch(parameters, arguments, k) is None <==> forall|i: int|
            k <= i < arguments.len() ==> #[trigger] arguments[i].get_type() == parameters[i],
    decreases parameters.len() - k,
{
    if k < parameters.len() {
        lemma_first_mismatch(parameters, arguments, k + 1);
        if parameters[k as int] != arguments[k as int].get_type() {
            assert(k <= k as int);
        }
    }
}

/// The checker accepts an expression with certain types if and only if these types are right:
/// what it accepts is well typed, it refuses nothing that is, and the types are unique.
pub proof fn law_check_is_typing(scope: Scope, e: ast::Expression, t: ExpressionView)
    ensures
        rules::check(scope, e) == Ok::<ExpressionView, Fault<ErrorView>>(t) <==> annotates(t, e)
            && well_typed(scope, t),
    decreases e,
{
    match e {
        ast::Expression::Scalar(_) => {},
        ast::Expression::Identifier(_) => {},
        ast::Expression::Negate(x) => {
            if let Ok(u) = rules::check(scope, *x) {
                law_check_is_typing(scope, *x, u);
            }
            if let ExpressionView::Negate(u, _) = t {
                law_check_is_typing(scope, *x, *u);
            }
        },
        ast::Expression::BinaryOperator(_, x, y) => {
            if let Ok(u) = rules::check(scope, *x) {
                law_check_is_typing(scope, *x, u);
            }
            if let Ok(v) = rules::check(scope, *y) {
                law_check_is_typing(scope, *y, v);
            }
            if let ExpressionView::BinaryOperator(_, u, v, _) = t {
                law_check_is_typing(scope, *x, *u);
                law_check_is_typing(scope, *y, *v);
            }
        },
        ast::Expression::FunctionCall(name, args) => {
            if let Ok(us) = rules::check_list(scope, args@) {
                lemma_check_list_is_typing(scope, args@, us);
                if scope.functions.contains_key(name@) {
                    let signature = scope.functions[name@];
                    if signature.parameters.len() == us.len() {
                        lemma_first_mismatch(signature.parameters, us, 0);
                    }
                }
            }
            if let ExpressionView::FunctionCall(_, us, _) = t {
                lemma_check_list_is_typing(scope, args@, us);
            }
        },
    }
}

proof fn lemma_check_list_is_typing(
    scope: Scope,
    es: Seq<ast::Expression>,
    ts: Seq<ExpressionView>,
)
    ensures
        rules::check_list(scope, es) == Ok::<Seq<ExpressionView>, Fault<ErrorView>>(ts)
            <==> annotates_list(ts, es) && well_typed_list(scope, ts),
        annotates_list(ts, es) ==> ts.len() == es.len(),
    decreases es,
{
    if es.len() > 0 {
        if let Ok(us) = rules::check_list(scope, es.drop_last()) {
            lemma_check_list_is_typing(scope, es.drop_last(), us);
            if let Ok(u) = rules::check(scope, es.last()) {
                law_check_is_typing(scope, es.last(), u);
                assert(us.push(u).drop_last() == us);
            }
        }
        if ts.len() > 0 {
            lemma_check_list_is_typing(scope, es.drop_last(), ts.drop_last());
            law_check_is_typing(scope, es.last(), ts.last());
            assert(ts.drop_last().push(ts.last()) == ts);
        }
    } else {
        assert(ts.len() == 0 ==> ts =~= Seq::empty());
    }
}

/// Whether a dimension is a product of powers of the given base dimensions.
pub open spec fn closed_over(bases: Set<Seq<char>>, d: Dim) -> bool {
    dim::valid(d) && d.dom().subset_of(bases)
}

/// Whether a table of dimensions is consistent: no name is both a base and a derived dimension,
/// and derived dimensions are products of powers of base dimensions.
pub open spec fn registry_valid(dims: RegistryView) -> bool {
    &&& forall|n: Seq<char>| #[trigger]
        dims.derived.contains_key(n) ==> !dims.bases.contains(n) && closed_over(
            dims.bases,
            dims.derived[n],
        )
}

/// Whether the dimensions in a signature are products of powers of the given base dimensions.
pub open spec fn signature_valid(bases: Set<Seq<char>>, s: SignatureView) -> bool {
    &&& forall|i: int| 0 <= i < s.parameters.len() ==> closed_over(bases, #[trigger] s.parameters[i])
    &&& closed_over(bases, s.return_type)
}

/// Whether the dimensions in a scope are products of powers of the given base dimensions.
pub open spec fn scope_valid(bases: Set<Seq<char>>, scope: Scope) -> bool {
    &&& forall|n: Seq<char>| #[trigger]
        scope.identifiers.contains_key(n) ==> closed_over(bases, scope.identifiers[n])
    &&& forall|n: Seq<char>| #[trigger]
        scope.functions.contains_key(n) ==> signature_valid(bases, scope.functions[n])
}

/// Whether what has been declared is consistent: all dimensions are products of powers of
/// declared base dimensions.
pub open spec fn checker_valid(c: CheckerView) -> bool {
    registry_valid(c.dims) && scope_valid(c.dims.bases, c.scope)
}

/// Whether all dimensions in a typed expression are products of powers of the given base
/// dimensions, and its numbers are in lowest terms.
pub open spec fn tree_valid(bases: Set<Seq<char>>, t: ExpressionView) -> bool
    decreases t,
{
    &&& closed_over(bases, t.get_type())
    &&& match t {
        ExpressionView::Scalar(n) => n.valid(),
        ExpressionView::Identifier(_, _) => true,
        ExpressionView::Negate(x, _) => tree_valid(bases, *x),
        ExpressionView::BinaryOperator(_, x, y, _) => tree_valid(bases, *x) && tree_valid(
            bases,
            *y,
        ),
        ExpressionView::FunctionCall(_, args, _) => trees_valid(bases, args),
    }
}

/// The same of a list of typed expressions.
pub open spec fn trees_valid(bases: Set<Seq<char>>, ts: Seq<ExpressionView>) -> bool
    decreases ts,
{
    ts.len() == 0 || (trees_valid(bases, ts.drop_last()) && tree_valid(bases, ts.last()))
}

/// What a dimension expression stands for is a product of powers of declared base dimensions.
pub proof fn law_represent_valid(dims: RegistryView, e: ast::DimensionExpression, d: Dim)
    requires
        registry_valid(dims),
        ast::dimension_valid(e),
        rules::represent(dims, e) == Ok::<Dim, Fault<RegistryErrorView>>(d),
    ensures
        closed_over(dims.bases, d),
    decreases e,
{
    match e {
        ast::DimensionExpression::Unity => {},
        ast::DimensionExpression::Dimension(name) => {
            ratio::lemma_from_integer(1);
            dim::lemma_factor_valid(name@, Ratio::one());
        },
        ast::DimensionExpression::Multiply(x, y) => {
            let a = rules::represent(dims, *x)->Ok_0;
            let b = rules::represent(dims, *y)->Ok_0;
            law_represent_valid(dims, *x, a);
            law_represent_valid(dims, *y, b);
            dim::lemma_product(a, b);
        },
        ast::DimensionExpression::Divide(x, y) => {
            let a = rules::represent(dims, *x)->Ok_0;
            let b = rules::represent(dims, *y)->Ok_0;
            law_represent_valid(dims, *x, a);
            law_represent_valid(dims, *y, b);
            dim::lemma_inverse(b);
            dim::lemma_product(a, dim::inverse(b));
        },
        ast::DimensionExpression::Power(x, n) => {
            let a = rules::represent(dims, *x)->Ok_0;
            law_represent_valid(dims, *x, a);
            dim::lemma_power(a, n@);
        },
    }
}

/// The value of an exponent is in lowest terms.
pub proof fn law_const_value_reduced(bases: Set<Seq<char>>, t: ExpressionView, v: Ratio)
    requires
        tree_valid(bases, t),
        rules::const_value(t) == Ok::<Ratio, Fault<ErrorView>>(v),
    ensures
        v.reduced(),
    decreases t,
{
    match t {
        ExpressionView::Negate(x, _) => {
            let w = rules::const_value(*x)->Ok_0;
            law_const_value_reduced(bases, *x, w);
            ratio::lemma_negate(w);
        },
        ExpressionView::BinaryOperator(_, x, y, _) => {
            let a = rules::const_value(*x)->Ok_0;
            let b = rules::const_value(*y)->Ok_0;
            law_const_value_reduced(bases, *x, a);
            law_const_value_reduced(bases, *y, b);
            ratio::lemma_closed(a, b);
        },
        _ => {},
    }
}

/// All dimensions in a checked expression are products of powers of declared base dimensions.
pub proof fn law_check_valid(
    bases: Set<Seq<char>>,
    scope: Scope,
    e: ast::Expression,
    t: ExpressionView,
)
    requires
        scope_valid(bases, scope),
        ast::expression_valid(e),
        rules::check(scope, e) == Ok::<ExpressionView, Fault<ErrorView>>(t),
    ensures
        tree_valid(bases, t),
    decreases e,
{
    match e {
        ast::Expression::Scalar(_) => {},
        ast::Expression::Identifier(_) => {},
        ast::Expression::Negate(x) => {
            law_check_valid(bases, scope, *x, rules::check(scope, *x)->Ok_0);
        },
        ast::Expression::BinaryOperator(op, x, y) => {
            let u = rules::check(scope, *x)->Ok_0;
            let v = rules::check(scope, *y)->Ok_0;
            law_check_valid(bases, scope, *x, u);
            law_check_valid(bases, scope, *y, v);
            let (l, r) = (u.get_type(), v.get_type());
            match op {
                ast::BinaryOperator::Mul => {
                    dim::lemma_product(l, r);
                },
                ast::BinaryOperator::Div => {
                    dim::lemma_inverse(r);
                    dim::lemma_product(l, dim::inverse(r));
                },
                ast::BinaryOperator::Power => {
                    if l != dim::unity() {
                        let w = rules::const_value(v)->Ok_0;
                        law_const_value_reduced(bases, v, w);
                        dim::lemma_power(l, w);
                    }
                },
                _ => {},
            }
        },
        ast::Expression::FunctionCall(name, args) => {
            let us = rules::check_list(scope, args@)->Ok_0;
            lemma_check_list_valid(bases, scope, args@, us);
        },
    }
}

proof fn lemma_check_list_valid(
    bases: Set<Seq<char>>,
    scope: Scope,
    es: Seq<ast::Expression>,
    ts: Seq<ExpressionView>,
)
    requires
        scope_valid(bases, scope),
        ast::expressions_valid(es),
        rules::check_list(scope, es) == Ok::<Seq<ExpressionView>, Fault<ErrorView>>(ts),
    ensures
        trees_valid(bases, ts),
    decreases es,
{
    if es.len() > 0 {
        let us = rules::check_list(scope, es.drop_last())->Ok_0;
        let u = rules::check(scope, es.last())->Ok_0;
        lemma_check_list_valid(bases, scope, es.drop_last(), us);
        law_check_valid(bases, scope, es.last(), u);
        assert(us.push(u).drop_last() == us);
    }
}

proof fn lemma_parameters_valid(
    dims: RegistryView,
    scope: Scope,
    s: Seq<(String, Option<ast::DimensionExpression>)>,
    ps: Seq<(Seq<char>, Dim)>,
)
    requires
        registry_valid(dims),
        scope_valid(dims.bases, scope),
        forall|i: int|
            0 <= i < s.len() ==> ((#[trigger] s[i]).1 matches Some(d) ==> ast::dimension_valid(d)),
        rules::parameters(dims, s) == Some(ps),
    ensures
        scope_valid(dims.bases, scope.with_parameters(ps)),
        ps.len() == s.len(),
        forall|i: int| 0 <= i < ps.len() ==> closed_over(dims.bases, (#[trigger] ps[i]).1),
    decreases s.len(),
{
    if s.len() > 0 {
        let before = rules::parameters(dims, s.drop_last())->Some_0;
        assert forall|i: int| 0 <= i < s.drop_last().len() implies ((#[trigger] s.drop_last()[i]).1
            matches Some(d) ==> ast::dimension_valid(d)) by {
            assert(s.drop_last()[i] == s[i]);
        }
        lemma_parameters_valid(dims, scope, s.drop_last(), before);
        assert(s.last() == s[s.len() - 1]);
        law_represent_valid(dims, s.last().1->Some_0, ps.last().1);
        assert(ps.drop_last() == before);
        assert forall|i: int| 0 <= i < ps.len() implies closed_over(
            dims.bases,
            (#[trigger] ps[i]).1,
        ) by {
            if i < before.len() {
                assert(ps[i] == before[i]);
            }
        }
    }
}

/// Declarations keep what has been declared consistent: a statement, accepted or refused, leaves
/// no dimension that is not a product of powers of declared base dimensions.
pub proof fn law_statement_keeps_valid(c: CheckerView, s: ast::Statement)
    requires
        checker_valid(c),
        ast::statement_valid(s),
    ensures
        checker_valid(rules::check_statement(c, s).0),
{
    let after = rules::check_statement(c, s).0;
    match s {
        ast::Statement::Expression(_) => {},
        ast::Statement::DeclareVariable(name, e, _) => {
            if let Ok(t) = rules::check(c.scope, e) {
                law_check_valid(c.dims.bases, c.scope, e, t);
            }
        },
        ast::Statement::DeclareDerivedUnit(name, e, _) => {
            if let Ok(t) = rules::check(c.scope, e) {
                law_check_valid(c.dims.bases, c.scope, e, t);
            }
        },
        ast::Statement::DeclareFunction(name, _, params, body, annotation) => {
            if let Ok((ps, t)) = rules::check_function(c, params@, body, annotation) {
                lemma_parameters_valid(c.dims, c.scope, params@, ps);
                law_check_valid(c.dims.bases, c.scope.with_parameters(ps), body, t);
            }
        },
        ast::Statement::DeclareDimension(name, es) => {
            if es@.len() == 0 {
                assert(c.dims.bases.subset_of(c.dims.bases.insert(name@)));
            } else if let Ok(d) = rules::represent(c.dims, es@[0]) {
                assert(ast::dimension_valid(es@[0]));
                law_represent_valid(c.dims, es@[0], d);
            }
        },
        ast::Statement::DeclareBaseUnit(name, e) => {
            if let Ok(d) = rules::represent(c.dims, e) {
                law_represent_valid(c.dims, e, d);
            }
        },
    }
}

/// What has been declared after statements that are checked one after the other. The checker goes on
/// after a statement that is refused.
pub open spec fn history(c: CheckerView, s: Seq<ast::Statement>) -> CheckerView
    decreases s.len(),
{
    if s.len() == 0 {
        c
    } else {
        rules::check_statement(history(c, s.drop_last()), s.last()).0
    }
}

/// The statements of a history that are accepted, with the dimensions of their parts.
pub open spec fn accepted(c: CheckerView, s: Seq<ast::Statement>) -> Seq<StatementView>
    decreases s.len(),
{
    if s.len() == 0 {
        Seq::empty()
    } else {
        match rules::check_statement(history(c, s.drop_last()), s.last()).1 {
            Ok(t) => accepted(c, s.drop_last()).push(t),
            Err(_) => accepted(c, s.drop_last()),
        }
    }
}

/// The statements up to the first that is refused, and with it.
pub open spec fn up_to_refusal(c: CheckerView, s: Seq<ast::Statement>) -> Seq<ast::Statement>
    decreases s.len(),
{
    if s.len() > 0 && rules::check_statements(c, s.drop_last()).1 is Err {
        up_to_refusal(c, s.drop_last())
    } else {
        s
    }
}

proof fn lemma_accepted_run(c: CheckerView, s: Seq<ast::Statement>)
    requires
        rules::check_statements(c, s).1 is Ok,
    ensures
        rules::check_statements(c, s).0 == history(c, s),
        rules::check_statements(c, s).1->Ok_0 == accepted(c, s),
        accepted(c, s).len() == s.len(),
    decreases s.len(),
{
    if s.len() > 0 {
        lemma_accepted_run(c, s.drop_last());
    }
}

proof fn lemma_refused_run(c: CheckerView, s: Seq<ast::Statement>)
    requires
        rules::check_statements(c, s).1 is Err,
    ensures
        ({
            let run = up_to_refusal(c, s);
            &&& 0 < run.len() <= s.len()
            &&& run == s.take(run.len() as int)
            &&& rules::check_statements(c, run.drop_last()).1 is Ok
            &&& rules::check_statements(c, run) == rules::check_statements(c, s)
        }),
    decreases s.len(),
{
    assert(s.len() > 0);
    let rest = s.drop_last();
    if rules::check_statements(c, rest).1 is Err {
        assert(rules::check_statements(c, s) == rules::check_statements(c, rest));
        lemma_refused_run(c, rest);
        let run = up_to_refusal(c, rest);
        assert(up_to_refusal(c, s) == run);
        assert(run == s.take(run.len() as int)) by {
            assert(rest.take(run.len() as int) =~= s.take(run.len() as int));
        }
    } else {
        assert(up_to_refusal(c, s) == s);
        assert(s == s.take(s.len() as int));
    }
}

/// Statements that are checked together are checked one after the other, up to the first that is
/// refused: that one decides the outcome, and all before it are accepted. If none is refused, all
/// are accepted.
pub proof fn law_run_is_a_history(c: CheckerView, s: Seq<ast::Statement>)
    ensures
        up_to_refusal(c, s) == s.take(up_to_refusal(c, s).len() as int),
        rules::check_statements(c, s).0 == history(c, up_to_refusal(c, s)),
        match rules::check_statements(c, s).1 {
            Ok(ts) => {
                &&& up_to_refusal(c, s) == s
                &&& accepted(c, s) == ts
                &&& ts.len() == s.len()
            },
            Err(f) => {
                let run = up_to_refusal(c, s);
                &&& run.len() > 0
                &&& accepted(c, run).len() == run.len() - 1
                &&& rules::check_statement(history(c, run.drop_last()), run.last()).1 == Err::<
                    StatementView,
                    Fault<ErrorView>,
                >(f)
            },
        },
{
    if rules::check_statements(c, s).1 is Ok {
        lemma_accepted_run(c, s);
        assert(s.take(s.len() as int) == s);
    } else {
        lemma_refused_run(c, s);
        lemma_accepted_run(c, up_to_refusal(c, s).drop_last());
    }
}

/// In every state that statements lead to, what has been declared is consistent, whether they are
/// checked one after the other or together.
pub proof fn law_statements_keep_valid(c: CheckerView, s: Seq<ast::Statement>)
    requires
        checker_valid(c),
        forall|i: int| 0 <= i < s.len() ==> ast::statement_valid(#[trigger] s[i]),
    ensures
        checker_valid(history(c, s)),
        checker_valid(rules::check_statements(c, s).0),
    decreases s.len(),
{
    if s.len() > 0 {
        assert forall|i: int| 0 <= i < s.drop_last().len() implies ast::statement_valid(
            #[trigger] s.drop_last()[i],
        ) by {
            assert(s.drop_last()[i] == s[i]);
        }
        law_statements_keep_valid(c, s.drop_last());
        assert(s.last() == s[s.len() - 1]);
        law_statement_keeps_valid(history(c, s.drop_last()), s.last());
        law_statement_keeps_valid(rules::check_statements(c, s.drop_last()).0, s.last());
    }
}

/// A checker to which nothing has been declared is consistent.
pub proof fn law_empty_valid()
    ensures
        checker_valid(CheckerView::empty()),
{
}

/// Whether a statement declares a dimension by an expression and then fails on a further one. The
/// dimension then stays declared.
pub open spec fn leaves_dimension_behind(c: CheckerView, s: ast::Statement) -> bool {
    &&& s matches ast::Statement::DeclareDimension(name, es)
    &&& es@.len() > 0
    &&& !c.dims.declares(name@)
    &&& rules::represent(c.dims, es@[0]) matches Ok(d)
    &&& rules::check_alternatives(c.dims.with_derived(name@, d), name@, d, es@, 1) is Err
}

/// A refused statement declares nothing, unless it leaves a dimension behind.
pub proof fn law_refused_declares_nothing(c: CheckerView, s: ast::Statement)
    requires
        rules::check_statement(c, s).1 is Err,
        !leaves_dimension_behind(c, s),
    ensures
        rules::check_statement(c, s).0 == c,
{
}

/// A refused statement changes no variable, no unit and no function, and of the dimensions at most
/// the one that it was to declare.
pub proof fn law_refused_keeps_scope(c: CheckerView, s: ast::Statement)
    requires
        rules::check_statement(c, s).1 is Err,
    ensures
        rules::check_statement(c, s).0.scope == c.scope,
        rules::check_statement(c, s).0.dims.bases == c.dims.bases,
        forall|n: Seq<char>|
            declared_name(s) != Some(n) ==> #[trigger] rules::check_statement(c, s).0.dims.lookup(n)
                == c.dims.lookup(n),
{
}

/// The name that a statement declares.
pub open spec fn declared_name(s: ast::Statement) -> Option<Seq<char>> {
    match s {
        ast::Statement::Expression(_) => None,
        ast::Statement::DeclareVariable(name, _, _) => Some(name@),
        ast::Statement::DeclareDerivedUnit(name, _, _) => Some(name@),
        ast::Statement::DeclareFunction(name, _, _, _, _) => Some(name@),
        ast::Statement::DeclareDimension(name, _) => Some(name@),
        ast::Statement::DeclareBaseUnit(name, _) => Some(name@),
    }
}

/// A statement changes what the name stands for that it declares, and nothing else. The parameters
/// of a function in particular are not known outside of it.
pub proof fn law_other_names_keep_their_meaning(c: CheckerView, s: ast::Statement, n: Seq<char>)
    requires
        declared_name(s) != Some(n),
    ensures
        ({
            let after = rules::check_statement(c, s).0;
            &&& after.scope.identifiers.contains_key(n) == c.scope.identifiers.contains_key(n)
            &&& after.scope.identifiers[n] == c.scope.identifiers[n]
            &&& after.scope.functions.contains_key(n) == c.scope.functions.contains_key(n)
            &&& after.scope.functions[n] == c.scope.functions[n]
            &&& after.dims.lookup(n) == c.dims.lookup(n)
        }),
{
}

/// Variables and units, functions, and dimensions have names of their own: a statement declares one
/// of the three and leaves the others alone.
pub proof fn law_name_spaces_are_separate(c: CheckerView, s: ast::Statement)
    ensures
        ({
            let after = rules::check_statement(c, s).0;
            &&& !(s is DeclareDimension) ==> after.dims == c.dims
            &&& !(s is DeclareFunction) ==> after.scope.functions == c.scope.functions
            &&& !(s is DeclareVariable || s is DeclareDerivedUnit || s is DeclareBaseUnit)
                ==> after.scope.identifiers == c.scope.identifiers
            &&& s is Expression ==> after == c
        }),
{
}

/// A dimension, once declared, stands for the same thing after whatever statements follow.
pub proof fn law_dimensions_are_permanent(c: CheckerView, s: Seq<ast::Statement>, n: Seq<char>)
    requires
        c.dims.declares(n),
    ensures
        history(c, s).dims.lookup(n) == c.dims.lookup(n),
        history(c, s).dims.declares(n),
    decreases s.len(),
{
    if s.len() > 0 {
        law_dimensions_are_permanent(c, s.drop_last(), n);
    }
}

/// So does a dimension expression that stands for something.
pub proof fn law_dimension_expressions_are_permanent(
    c: CheckerView,
    s: Seq<ast::Statement>,
    e: ast::DimensionExpression,
)
    requires
        rules::represent(c.dims, e) is Ok,
    ensures
        rules::represent(history(c, s).dims, e) == rules::represent(c.dims, e),
    decreases e,
{
    match e {
        ast::DimensionExpression::Unity => {},
        ast::DimensionExpression::Dimension(name) => {
            law_dimensions_are_permanent(c, s, name@);
        },
        ast::DimensionExpression::Multiply(x, y) => {
            law_dimension_expressions_are_permanent(c, s, *x);
            law_dimension_expressions_are_permanent(c, s, *y);
        },
        ast::DimensionExpression::Divide(x, y) => {
            law_dimension_expressions_are_permanent(c, s, *x);
            law_dimension_expressions_are_permanent(c, s, *y);
        },
        ast::DimensionExpression::Power(x, _) => {
            law_dimension_expressions_are_permanent(c, s, *x);
        },
    }
}

/// A dimension that has been declared cannot be declared again.
pub proof fn law_dimensions_are_declared_once(
    c: CheckerView,
    name: String,
    es: Vec<ast::DimensionExpression>,
)
    requires
        c.dims.declares(name@),
    ensures
        rules::check_statement(c, ast::Statement::DeclareDimension(name, es)).1 is Err,
        rules::check_statement(c, ast::Statement::DeclareDimension(name, es)).0 == c,
{
}

/// After its declaration a dimension can be used, and all the expressions that it was declared by
/// stand for it.
pub proof fn law_declared_dimension_is_known(
    c: CheckerView,
    name: String,
    es: Vec<ast::DimensionExpression>,
)
    requires
        rules::check_statement(c, ast::Statement::DeclareDimension(name, es)).1 is Ok,
    ensures
        ({
            let after = rules::check_statement(c, ast::Statement::DeclareDimension(name, es)).0;
            let d = if es@.len() == 0 {
                dim::factor(name@, Ratio::one())
            } else {
                rules::represent(c.dims, es@[0])->Ok_0
            };
            &&& rules::represent(after.dims, ast::DimensionExpression::Dimension(name)) == Ok::<
                Dim,
                Fault<RegistryErrorView>,
            >(d)
            &&& forall|i: int|
                0 <= i < es@.len() ==> rules::represent(after.dims, #[trigger] es@[i]) == Ok::<
                    Dim,
                    Fault<RegistryErrorView>,
                >(d)
        }),
{
    let s = ast::Statement::DeclareDimension(name, es);
    let after = rules::check_statement(c, s).0;
    if es@.len() > 0 {
        let d = rules::represent(c.dims, es@[0])->Ok_0;
        lemma_alternatives(after.dims, name@, d, es@, 1);
        let one = seq![s];
        assert(one.drop_last() == Seq::<ast::Statement>::empty());
        assert(history(c, one.drop_last()) == c);
        law_dimension_expressions_are_permanent(c, one, es@[0]);
    }
}

proof fn lemma_alternatives(
    dims: RegistryView,
    name: Seq<char>,
    d: Dim,
    s: Seq<ast::DimensionExpression>,
    k: nat,
)
    requires
        rules::check_alternatives(dims, name, d, s, k) is Ok,
    ensures
        forall|i: int|
            k <= i < s.len() ==> rules::represent(dims, #[trigger] s[i]) == Ok::<
                Dim,
                Fault<RegistryErrorView>,
            >(d),
    decreases s.len() - k,
{
    if k < s.len() {
        lemma_alternatives(dims, name, d, s, k + 1);
    }
}

/// After its declaration a variable or a unit has the dimension of its value.
pub proof fn law_declared_identifier_is_known(c: CheckerView, s: ast::Statement, name: String)
    requires
        s is DeclareVariable || s is DeclareDerivedUnit || s is DeclareBaseUnit,
        declared_name(s) == Some(name@),
        rules::check_statement(c, s).1 is Ok,
    ensures
        ({
            let (after, verdict) = rules::check_statement(c, s);
            let d = match verdict->Ok_0 {
                StatementView::DeclareVariable(_, _, d) => d,
                StatementView::DeclareDerivedUnit(_, _, d) => d,
                StatementView::DeclareBaseUnit(_, d) => d,
                _ => dim::unity(),
            };
            rules::check(after.scope, ast::Expression::Identifier(name)) == Ok::<
                ExpressionView,
                Fault<ErrorView>,
            >(ExpressionView::Identifier(name@, d))
        }),
{
}

/// After its declaration a function can be called with arguments of the dimensions of its
/// parameters, and with no others; the call has the dimension of the body.
pub proof fn law_declared_function_can_be_called(
    c: CheckerView,
    s: ast::Statement,
    name: String,
    args: Vec<ast::Expression>,
    ts: Seq<ExpressionView>,
)
    requires
        s is DeclareFunction,
        declared_name(s) == Some(name@),
        rules::check_statement(c, s).1 is Ok,
        rules::check_list(rules::check_statement(c, s).0.scope, args@) == Ok::<
            Seq<ExpressionView>,
            Fault<ErrorView>,
        >(ts),
    ensures
        ({
            let (after, verdict) = rules::check_statement(c, s);
            let ps = verdict->Ok_0->DeclareFunction_1;
            let d = verdict->Ok_0->DeclareFunction_3;
            let call = rules::check(after.scope, ast::Expression::FunctionCall(name, args));
            if ts.len() == ps.len() && (forall|i: int|
                0 <= i < ts.len() ==> #[trigger] ts[i].get_type() == ps[i].1) {
                call == Ok::<ExpressionView, Fault<ErrorView>>(
                    ExpressionView::FunctionCall(name@, ts, d),
                )
            } else {
                call is Err
            }
        }),
{
    let (after, verdict) = rules::check_statement(c, s);
    let ps = verdict->Ok_0->DeclareFunction_1;
    let types = rules::parameter_types(ps);
    lemma_check_list_is_typing(after.scope, args@, ts);
    if ts.len() == ps.len() {
        lemma_first_mismatch(types, ts, 0);
        assert(forall|i: int| 0 <= i < ps.len() ==> #[trigger] types[i] == ps[i].1);
    }
}

/// The body of a function sees the functions that were declared before.
pub proof fn law_body_sees_earlier_functions(scope: Scope, ps: Seq<(Seq<char>, Dim)>)
    ensures
        scope.with_parameters(ps).functions == scope.functions,
    decreases ps.len(),
{
    if ps.len() > 0 {
        law_body_sees_earlier_functions(scope, ps.drop_last());
    }
}

/// Whether a function is called in an expression.
pub open spec fn calls(name: Seq<char>, e: ast::Expression) -> bool
    decreases e,
{
    match e {
        ast::Expression::Scalar(_) => false,
        ast::Expression::Identifier(_) => false,
        ast::Expression::Negate(x) => calls(name, *x),
        ast::Expression::BinaryOperator(_, x, y) => calls(name, *x) || calls(name, *y),
        ast::Expression::FunctionCall(n, args) => n@ == name || calls_in_list(name, args@),
    }
}

/// Whether a function is called in one of several expressions.
pub open spec fn calls_in_list(name: Seq<char>, s: Seq<ast::Expression>) -> bool
    decreases s,
{
    s.len() > 0 && (calls_in_list(name, s.drop_last()) || calls(name, s.last()))
}

/// An expression that calls a function which has not been declared is not accepted.
pub proof fn law_unknown_functions_are_refused(scope: Scope, name: Seq<char>, e: ast::Expression)
    requires
        !scope.functions.contains_key(name),
        calls(name, e),
    ensures
        rules::check(scope, e) is Err,
    decreases e,
{
    match e {
        ast::Expression::Negate(x) => {
            law_unknown_functions_are_refused(scope, name, *x);
        },
        ast::Expression::BinaryOperator(_, x, y) => {
            if calls(name, *x) {
                law_unknown_functions_are_refused(scope, name, *x);
            } else {
                law_unknown_functions_are_refused(scope, name, *y);
            }
        },
        ast::Expression::FunctionCall(n, args) => {
            if n@ != name {
                lemma_unknown_functions_are_refused(scope, name, args@);
            }
        },
        _ => {},
    }
}

proof fn lemma_unknown_functions_are_refused(
    scope: Scope,
    name: Seq<char>,
    s: Seq<ast::Expression>,
)
    requires
        !scope.functions.contains_key(name),
        calls_in_list(name, s),
    ensures
        rules::check_list(scope, s) is Err,
    decreases s,
{
    if calls_in_list(name, s.drop_last()) {
        lemma_unknown_functions_are_refused(scope, name, s.drop_last());
    } else {
        law_unknown_functions_are_refused(scope, name, s.last());
    }
}

/// A function cannot call itself, unless one with its name was declared before.
pub proof fn law_function_cannot_call_itself(
    c: CheckerView,
    name: String,
    type_parameters: Vec<String>,
    params: Vec<(String, Option<ast::DimensionExpression>)>,
    body: ast::Expression,
    annotation: Option<ast::DimensionExpression>,
)
    requires
        !c.scope.functions.contains_key(name@),
        calls(name@, body),
    ensures
        rules::check_statement(
            c,
            ast::Statement::DeclareFunction(name, type_parameters, params, body, annotation),
        ).1 is Err,
{
    if let Some(ps) = rules::parameters(c.dims, params@) {
        law_body_sees_earlier_functions(c.scope, ps);
        law_unknown_functions_are_refused(c.scope.with_parameters(ps), name@, body);
    }
}

/// Inside its body a parameter has the dimension of its annotation, and names that are no
/// parameters mean what they mean outside.
pub proof fn law_parameters_hide_identifiers(
    scope: Scope,
    ps: Seq<(Seq<char>, Dim)>,
    n: Seq<char>,
)
    ensures
        ({
            let inner = scope.with_parameters(ps).identifiers;
            &&& (forall|i: int| 0 <= i < ps.len() ==> (#[trigger] ps[i]).0 != n) ==> {
                &&& inner.contains_key(n) == scope.identifiers.contains_key(n)
                &&& inner[n] == scope.identifiers[n]
            }
            &&& forall|k: int|
                0 <= k < ps.len() && (#[trigger] ps[k]).0 == n && (forall|i: int|
                    k < i < ps.len() ==> (#[trigger] ps[i]).0 != n) ==> inner.contains_key(n)
                    && inner[n] == ps[k].1
        }),
    decreases ps.len(),
{
    if ps.len() > 0 {
        let rest = ps.drop_last();
        law_parameters_hide_identifiers(scope, rest, n);
        let inner = scope.with_parameters(ps).identifiers;
        let before = scope.with_parameters(rest).identifiers;
        if forall|i: int| 0 <= i < ps.len() ==> (#[trigger] ps[i]).0 != n {
            assert(ps.last() == ps[ps.len() - 1]);
            assert forall|i: int| 0 <= i < rest.len() implies (#[trigger] rest[i]).0 != n by {
                assert(rest[i] == ps[i]);
            }
        }
        assert forall|k: int|
            0 <= k < ps.len() && (#[trigger] ps[k]).0 == n && (forall|i: int|
                k < i < ps.len() ==> (#[trigger] ps[i]).0 != n) implies inner.contains_key(n)
            && inner[n] == ps[k].1 by {
            if k < ps.len() - 1 {
                assert(ps.last() == ps[ps.len() - 1]);
                assert(rest[k] == ps[k]);
                assert forall|i: int| k < i < rest.len() implies (#[trigger] rest[i]).0 != n by {
                    assert(rest[i] == ps[i]);
                }
            }
        }
    }
}

/// The dimension that the annotation of a value asks for, and the one that the value has, where
/// they differ.
pub open spec fn annotation_mismatch(
    c: CheckerView,
    e: ast::Expression,
    annotation: Option<ast::DimensionExpression>,
) -> Option<(Dim, Dim)> {
    match (rules::check(c.scope, e), annotation) {
        (Ok(t), Some(d)) => match rules::represent(c.dims, d) {
            Ok(specified) => if specified != t.get_type() {
                Some((specified, t.get_type()))
            } else {
                None
            },
            Err(_) => None,
        },
        _ => None,
    }
}

/// The refusal of a value that does not have the dimension that it is annotated with.
pub open spec fn refused_annotation(context: Seq<char>, specified: Dim, actual: Dim) -> Fault<
    ErrorView,
> {
    Fault::Rejected(
        ErrorView::IncompatibleDimensions(
            context,
            "specified dimension"@,
            specified,
            "   actual dimension"@,
            actual,
        ),
    )
}

/// A derived unit is declared as a variable is: it is accepted with the same types and means the
/// same afterwards, and it is refused for the same reason. Only where the value does not
/// have the annotated dimension does the message say which of the two was declared.
pub proof fn law_unit_is_declared_as_variable(
    c: CheckerView,
    name: String,
    e: ast::Expression,
    annotation: Option<ast::DimensionExpression>,
)
    ensures
        ({
            let (c1, r1) = rules::check_statement(
                c,
                ast::Statement::DeclareVariable(name, e, annotation),
            );
            let (c2, r2) = rules::check_statement(
                c,
                ast::Statement::DeclareDerivedUnit(name, e, annotation),
            );
            &&& c1 == c2
            &&& match (r1, annotation_mismatch(c, e, annotation)) {
                (Ok(t), _) => r2 == Ok::<StatementView, Fault<ErrorView>>(
                    StatementView::DeclareDerivedUnit(
                        name@,
                        t->DeclareVariable_1,
                        t->DeclareVariable_2,
                    ),
                ),
                (Err(f), None) => r2 == Err::<StatementView, Fault<ErrorView>>(f),
                (Err(f), Some((specified, actual))) => {
                    &&& f == refused_annotation("variable declaration"@, specified, actual)
                    &&& r2 == Err::<StatementView, Fault<ErrorView>>(
                        refused_annotation("derived unit declaration"@, specified, actual),
                    )
                },
            }
        }),
{
}

/// The dimension that a variable, a derived unit or the result of a function is annotated with.
pub open spec fn annotation_of(s: ast::Statement) -> Option<ast::DimensionExpression> {
    match s {
        ast::Statement::DeclareVariable(_, _, d) => d,
        ast::Statement::DeclareDerivedUnit(_, _, d) => d,
        ast::Statement::DeclareFunction(_, _, _, _, d) => d,
        _ => None,
    }
}

/// A statement without that annotation.
pub open spec fn without_annotation(s: ast::Statement) -> ast::Statement {
    match s {
        ast::Statement::DeclareVariable(name, e, _) => {
            ast::Statement::DeclareVariable(name, e, None)
        },
        ast::Statement::DeclareDerivedUnit(name, e, _) => {
            ast::Statement::DeclareDerivedUnit(name, e, None)
        },
        ast::Statement::DeclareFunction(name, ts, ps, e, _) => {
            ast::Statement::DeclareFunction(name, ts, ps, e, None)
        },
        _ => s,
    }
}

/// The dimension that is found for the declared variable or derived unit, or for the result of the
/// declared function.
pub open spec fn deduced_type(t: StatementView) -> Option<Dim> {
    match t {
        StatementView::DeclareVariable(_, _, d) => Some(d),
        StatementView::DeclareDerivedUnit(_, _, d) => Some(d),
        StatementView::DeclareFunction(_, _, _, d) => Some(d),
        _ => None,
    }
}

/// An annotation of a variable, a derived unit or the result of a function only checks. What is
/// refused without it is refused with it, for the same reason. What is accepted without it is
/// accepted with it if and only if it stands for the deduced dimension, and then it makes no
/// difference; else nothing is declared.
pub proof fn law_annotation_only_checks(c: CheckerView, s: ast::Statement)
    requires
        annotation_of(s) is Some,
    ensures
        ({
            let with = rules::check_statement(c, s);
            let without = rules::check_statement(c, without_annotation(s));
            match without.1 {
                Err(_) => with == without,
                Ok(t) => match rules::represent(c.dims, annotation_of(s)->Some_0) {
                    Ok(d) if deduced_type(t) == Some(d) => with == without,
                    _ => with.0 == c && with.1 is Err,
                },
            }
        }),
{
}

/// A power of a plain number is a plain number, whatever the exponent, as long as that is a plain
/// number: it need not be constant, and is not evaluated.
pub proof fn law_power_of_plain_number(scope: Scope, x: ast::Expression, y: ast::Expression)
    requires
        rules::check(scope, x) is Ok,
        rules::check(scope, y) is Ok,
        rules::check(scope, x)->Ok_0.get_type() == dim::unity(),
        rules::check(scope, y)->Ok_0.get_type() == dim::unity(),
    ensures
        ({
            let power = ast::Expression::BinaryOperator(
                ast::BinaryOperator::Power,
                Box::new(x),
                Box::new(y),
            );
            rules::check(scope, power) is Ok && rules::check(scope, power)->Ok_0.get_type()
                == dim::unity()
        }),
{
}

/// Whether a name stands in an expression for a variable or a unit.
pub open spec fn reads(name: Seq<char>, e: ast::Expression) -> bool
    decreases e,
{
    match e {
        ast::Expression::Scalar(_) => false,
        ast::Expression::Identifier(n) => n@ == name,
        ast::Expression::Negate(x) => reads(name, *x),
        ast::Expression::BinaryOperator(_, x, y) => reads(name, *x) || reads(name, *y),
        ast::Expression::FunctionCall(_, args) => reads_in_list(name, args@),
    }
}

/// Whether a name stands in one of several expressions for a variable or a unit.
pub open spec fn reads_in_list(name: Seq<char>, s: Seq<ast::Expression>) -> bool
    decreases s,
{
    s.len() > 0 && (reads_in_list(name, s.drop_last()) || reads(name, s.last()))
}

/// Whether two scopes agree on what an identifier means.
pub open spec fn agree_on_identifier(a: Scope, b: Scope, n: Seq<char>) -> bool {
    &&& a.identifiers.contains_key(n) == b.identifiers.contains_key(n)
    &&& a.identifiers.contains_key(n) ==> a.identifiers[n] == b.identifiers[n]
}

/// Whether two scopes agree on what a function is.
pub open spec fn agree_on_function(a: Scope, b: Scope, n: Seq<char>) -> bool {
    &&& a.functions.contains_key(n) == b.functions.contains_key(n)
    &&& a.functions.contains_key(n) ==> a.functions[n] == b.functions[n]
}

/// Whether two scopes agree on the identifiers in an expression and on the functions that it calls.
pub open spec fn agree_on(a: Scope, b: Scope, e: ast::Expression) -> bool {
    &&& forall|n: Seq<char>| #[trigger] reads(n, e) ==> agree_on_identifier(a, b, n)
    &&& forall|n: Seq<char>| #[trigger] calls(n, e) ==> agree_on_function(a, b, n)
}

/// Only the identifiers that occur in an expression and the functions that it calls matter for it.
pub proof fn law_only_names_that_occur_matter(a: Scope, b: Scope, e: ast::Expression)
    requires
        agree_on(a, b, e),
    ensures
        rules::check(a, e) == rules::check(b, e),
    decreases e,
{
    match e {
        ast::Expression::Scalar(_) => {},
        ast::Expression::Identifier(n) => {
            assert(reads(n@, e));
        },
        ast::Expression::Negate(x) => {
            assert forall|n: Seq<char>| #[trigger] reads(n, *x) implies reads(n, e) by {}
            assert forall|n: Seq<char>| #[trigger] calls(n, *x) implies calls(n, e) by {}
            law_only_names_that_occur_matter(a, b, *x);
        },
        ast::Expression::BinaryOperator(_, x, y) => {
            assert forall|n: Seq<char>| #[trigger] reads(n, *x) implies reads(n, e) by {}
            assert forall|n: Seq<char>| #[trigger] calls(n, *x) implies calls(n, e) by {}
            assert forall|n: Seq<char>| #[trigger] reads(n, *y) implies reads(n, e) by {}
            assert forall|n: Seq<char>| #[trigger] calls(n, *y) implies calls(n, e) by {}
            law_only_names_that_occur_matter(a, b, *x);
            law_only_names_that_occur_matter(a, b, *y);
        },
        ast::Expression::FunctionCall(n, args) => {
            assert(calls(n@, e));
            lemma_only_names_that_occur_matter(a, b, e, args@);
        },
    }
}

proof fn lemma_only_names_that_occur_matter(
    a: Scope,
    b: Scope,
    e: ast::Expression,
    s: Seq<ast::Expression>,
)
    requires
        agree_on(a, b, e),
        forall|n: Seq<char>| #[trigger] reads_in_list(n, s) ==> reads(n, e),
        forall|n: Seq<char>| #[trigger] calls_in_list(n, s) ==> calls(n, e),
    ensures
        rules::check_list(a, s) == rules::check_list(b, s),
    decreases s,
{
    if s.len() > 0 {
        let rest = s.drop_last();
        assert forall|n: Seq<char>| #[trigger] reads_in_list(n, rest) implies reads(n, e) by {
            assert(reads_in_list(n, s));
        }
        assert forall|n: Seq<char>| #[trigger] calls_in_list(n, rest) implies calls(n, e) by {
            assert(calls_in_list(n, s));
        }
        assert forall|n: Seq<char>| #[trigger] reads(n, s.last()) implies reads(n, e) by {
            assert(reads_in_list(n, s));
        }
        assert forall|n: Seq<char>| #[trigger] calls(n, s.last()) implies calls(n, e) by {
            assert(calls_in_list(n, s));
        }
        lemma_only_names_that_occur_matter(a, b, e, rest);
        law_only_names_that_occur_matter(a, b, s.last());
    }
}

/// A statement does not change what becomes of an expression, unless it declares an identifier that
/// occurs in the expression, or a function that the expression calls.
pub proof fn law_unrelated_statement(c: CheckerView, s: ast::Statement, e: ast::Expression)
    requires
        s matches ast::Statement::DeclareVariable(n, _, _) ==> !reads(n@, e),
        s matches ast::Statement::DeclareDerivedUnit(n, _, _) ==> !reads(n@, e),
        s matches ast::Statement::DeclareBaseUnit(n, _) ==> !reads(n@, e),
        s matches ast::Statement::DeclareFunction(n, _, _, _, _) ==> !calls(n@, e),
    ensures
        rules::check(rules::check_statement(c, s).0.scope, e) == rules::check(c.scope, e),
{
    let after = rules::check_statement(c, s).0;
    assert(agree_on(after.scope, c.scope, e));
    law_only_names_that_occur_matter(after.scope, c.scope, e);
}

/// The dimension that a statement gives to an identifier.
pub open spec fn identifier_type(t: StatementView, n: Seq<char>) -> Option<Dim> {
    match t {
        StatementView::DeclareVariable(m, _, d) if m == n => Some(d),
        StatementView::DeclareDerivedUnit(m, _, d) if m == n => Some(d),
        StatementView::DeclareBaseUnit(m, d) if m == n => Some(d),
        _ => None,
    }
}

/// The signature that a statement gives to a function.
pub open spec fn function_signature(t: StatementView, n: Seq<char>) -> Option<SignatureView> {
    match t {
        StatementView::DeclareFunction(m, ps, _, d) if m == n => Some(
            SignatureView { parameters: rules::parameter_types(ps), return_type: d },
        ),
        _ => None,
    }
}

/// The dimension that the latest of several statements gives to an identifier.
pub open spec fn latest_type(ts: Seq<StatementView>, n: Seq<char>) -> Option<Dim>
    decreases ts.len(),
{
    if ts.len() == 0 {
        None
    } else {
        match identifier_type(ts.last(), n) {
            Some(d) => Some(d),
            None => latest_type(ts.drop_last(), n),
        }
    }
}

/// The signature that the latest of several statements gives to a function.
pub open spec fn latest_signature(ts: Seq<StatementView>, n: Seq<char>) -> Option<SignatureView>
    decreases ts.len(),
{
    if ts.len() == 0 {
        None
    } else {
        match function_signature(ts.last(), n) {
            Some(s) => Some(s),
            None => latest_signature(ts.drop_last(), n),
        }
    }
}

proof fn lemma_latest_declaration(c: CheckerView, s: Seq<ast::Statement>, n: Seq<char>)
    ensures
        ({
            let after = history(c, s).scope;
            &&& match latest_type(accepted(c, s), n) {
                Some(d) => after.identifiers.contains_key(n) && after.identifiers[n] == d,
                None => agree_on_identifier(after, c.scope, n),
            }
            &&& match latest_signature(accepted(c, s), n) {
                Some(f) => after.functions.contains_key(n) && after.functions[n] == f,
                None => agree_on_function(after, c.scope, n),
            }
        }),
    decreases s.len(),
{
    if s.len() > 0 {
        let rest = s.drop_last();
        let before = history(c, rest);
        lemma_latest_declaration(c, rest, n);
        match rules::check_statement(before, s.last()).1 {
            Ok(_) => {
                assert(accepted(c, s).drop_last() == accepted(c, rest));
            },
            Err(_) => {
                law_refused_keeps_scope(before, s.last());
            },
        }
    }
}

/// An identifier has the dimension of its latest accepted declaration, whatever was refused before
/// or after it. If there is none, it means what it meant at the start; where nothing had been
/// declared, it is unknown.
pub proof fn law_latest_declaration_counts(c: CheckerView, s: Seq<ast::Statement>, name: String)
    ensures
        ({
            let after = history(c, s);
            let identifier = ast::Expression::Identifier(name);
            match latest_type(accepted(c, s), name@) {
                Some(d) => rules::check(after.scope, identifier) == Ok::<
                    ExpressionView,
                    Fault<ErrorView>,
                >(ExpressionView::Identifier(name@, d)),
                None => {
                    &&& rules::check(after.scope, identifier) == rules::check(c.scope, identifier)
                    &&& c == CheckerView::empty() ==> rules::check(after.scope, identifier)
                        == Err::<ExpressionView, Fault<ErrorView>>(
                        Fault::Rejected(ErrorView::UnknownIdentifier(name@)),
                    )
                },
            }
        }),
{
    lemma_latest_declaration(c, s, name@);
}

/// A function has the signature of its latest accepted declaration, whatever was refused before or
/// after it. If there is none, it is as it was at the start; where nothing had been declared, it is
/// unknown.
pub proof fn law_latest_function_counts(c: CheckerView, s: Seq<ast::Statement>, n: Seq<char>)
    ensures
        ({
            let after = history(c, s).scope;
            match latest_signature(accepted(c, s), n) {
                Some(f) => after.functions.contains_key(n) && after.functions[n] == f,
                None => {
                    &&& agree_on_function(after, c.scope, n)
                    &&& c == CheckerView::empty() ==> !after.functions.contains_key(n)
                },
            }
        }),
{
    lemma_latest_declaration(c, s, n);
}

/// So it is after statements that are checked together: what counts is the latest declaration among
/// those before the first that is refused.
pub proof fn law_latest_declaration_counts_in_a_run(
    c: CheckerView,
    s: Seq<ast::Statement>,
    n: Seq<char>,
)
    ensures
        ({
            let after = rules::check_statements(c, s).0.scope;
            let ts = accepted(c, up_to_refusal(c, s));
            &&& match latest_type(ts, n) {
                Some(d) => after.identifiers.contains_key(n) && after.identifiers[n] == d,
                None => agree_on_identifier(after, c.scope, n),
            }
            &&& match latest_signature(ts, n) {
                Some(f) => after.functions.contains_key(n) && after.functions[n] == f,
                None => agree_on_function(after, c.scope, n),
            }
        }),
{
    law_run_is_a_history(c, s);
    lemma_latest_declaration(c, up_to_refusal(c, s), n);
}

/// The factors of a product may be exchanged: it is accepted in either order, with the same
/// dimension.
pub proof fn law_multiplication_commutes(
    bases: Set<Seq<char>>,
    scope: Scope,
    x: ast::Expression,
    y: ast::Expression,
)
    requires
        scope_valid(bases, scope),
        ast::expression_valid(x),
        ast::expression_valid(y),
        rules::check(scope, x) is Ok,
        rules::check(scope, y) is Ok,
    ensures
        ({
            let xy = rules::check(
                scope,
                ast::Expression::BinaryOperator(ast::BinaryOperator::Mul, Box::new(x), Box::new(y)),
            );
            let yx = rules::check(
                scope,
                ast::Expression::BinaryOperator(ast::BinaryOperator::Mul, Box::new(y), Box::new(x)),
            );
            match xy {
                Ok(t) => yx is Ok && yx->Ok_0.get_type() == t.get_type(),
                Err(f) => yx == Err::<ExpressionView, Fault<ErrorView>>(f),
            }
        }),
{
    let t = rules::check(scope, x)->Ok_0;
    let u = rules::check(scope, y)->Ok_0;
    law_check_valid(bases, scope, x, t);
    law_check_valid(bases, scope, y, u);
    let (l, r) = (t.get_type(), u.get_type());
    dim::law_product_commutes(l, r);
    assert(registry::product_fits(l, r) == registry::product_fits(r, l)) by {
        assert forall|n: Seq<char>|
            #![trigger l.contains_key(n), r.contains_key(n)]
            l.contains_key(n) && r.contains_key(n) implies arithmetic::sum_fits(l[n], r[n])
            == arithmetic::sum_fits(r[n], l[n]) by {
            ratio::lemma_lcm_commutes(l[n].denom, r[n].denom);
        }
    }
}

/// Multiplying powers of one expression adds the exponents: where the product of two powers and
/// the power with the sum of the exponents are both accepted, they have the same dimension.
pub proof fn law_powers_multiply(
    bases: Set<Seq<char>>,
    scope: Scope,
    x: ast::Expression,
    p: ast::Expression,
    q: ast::Expression,
)
    requires
        scope_valid(bases, scope),
        ast::expression_valid(x),
        ast::expression_valid(p),
        ast::expression_valid(q),
        rules::check(scope, power_of(x, sum_of(p, q))) is Ok,
        rules::check(scope, product_of(power_of(x, p), power_of(x, q))) is Ok,
    ensures
        rules::check(scope, power_of(x, sum_of(p, q)))->Ok_0.get_type() == rules::check(
            scope,
            product_of(power_of(x, p), power_of(x, q)),
        )->Ok_0.get_type(),
{
    reveal_with_fuel(rules::check, 3);
    reveal_with_fuel(rules::const_value, 2);
    let t = rules::check(scope, x)->Ok_0;
    let u = rules::check(scope, p)->Ok_0;
    let v = rules::check(scope, q)->Ok_0;
    law_check_valid(bases, scope, x, t);
    law_check_valid(bases, scope, p, u);
    law_check_valid(bases, scope, q, v);
    let d = t.get_type();
    if d == dim::unity() {
        dim::law_unity_is_neutral(d);
    } else {
        let a = rules::const_value(u)->Ok_0;
        let b = rules::const_value(v)->Ok_0;
        law_const_value_reduced(bases, u, a);
        law_const_value_reduced(bases, v, b);
        dim::law_power_sum(d, a, b);
    }
}

pub open spec fn power_of(x: ast::Expression, y: ast::Expression) -> ast::Expression {
    ast::Expression::BinaryOperator(ast::BinaryOperator::Power, Box::new(x), Box::new(y))
}

pub open spec fn sum_of(x: ast::Expression, y: ast::Expression) -> ast::Expression {
    ast::Expression::BinaryOperator(ast::BinaryOperator::Add, Box::new(x), Box::new(y))
}

pub open spec fn product_of(x: ast::Expression, y: ast::Expression) -> ast::Expression {
    ast::Expression::BinaryOperator(ast::BinaryOperator::Mul, Box::new(x), Box::new(y))
}

/// Checking statements in two parts is checking them together: the second part goes on where the
/// first one ends, and is not looked at if the first is refused.
pub proof fn law_statements_compose(
    c: CheckerView,
    s: Seq<ast::Statement>,
    t: Seq<ast::Statement>,
)
    ensures
        ({
            let (c1, r1) = rules::check_statements(c, s);
            let (c2, r2) = rules::check_statements(c1, t);
            rules::check_statements(c, s + t) == match (r1, r2) {
                (Err(f), _) => (c1, Err(f)),
                (_, Err(f)) => (c2, Err(f)),
                (Ok(us), Ok(vs)) => (c2, Ok(us + vs)),
            }
        }),
    decreases t.len(),
{
    let (c1, r1) = rules::check_statements(c, s);
    if t.len() == 0 {
        assert(s + t == s);
        if let Ok(us) = r1 {
            assert(us + Seq::<StatementView>::empty() =~= us);
        }
    } else {
        law_statements_compose(c, s, t.drop_last());
        assert((s + t).drop_last() == s + t.drop_last());
        assert((s + t).last() == t.last());
        let (c2, r2) = rules::check_statements(c1, t.drop_last());
        if let Ok(us) = r1 {
            if let Ok(vs) = r2 {
                if let Ok(w) = rules::check_statement(c2, t.last()).1 {
                    assert((us + vs).push(w) == us + vs.push(w));
                }
            }
        }
    }
}

/// As many statements come out as go in, if none is refused.
pub proof fn law_statements_keep_their_number(c: CheckerView, s: Seq<ast::Statement>)
    requires
        rules::check_statements(c, s).1 is Ok,
    ensures
        rules::check_statements(c, s).1->Ok_0.len() == s.len(),
{
    law_run_is_a_history(c, s);
}

} // verus!
