//! What the rules mean, in terms of integers, names and tables.

use vstd::prelude::*;
use crate::arithmetic;
use crate::ast;
use crate::dim;
use crate::dim::Dim;
use crate::fault::Fault;
use crate::laws;
use crate::ratio;
use crate::ratio::Ratio;
use crate::registry;
use crate::registry::{RegistryErrorView, RegistryView};
use crate::rules;
use crate::rules::{CheckerView, ErrorView, Scope, SignatureView};
use crate::typed_ast::{ExpressionView, StatementView};

verus! {

/// Whether an integer can be held in 128 bits.
pub open spec fn in_128_bits(x: int) -> bool {
    i128::MIN <= x <= i128::MAX
}

/// Whether the quotient of two integers, in lowest terms, can be held in two numbers of 128 bits.
pub open spec fn quotient_in_128_bits(n: int, d: int) -> bool {
    exists|r: Ratio| #[trigger] ratio::is_quotient(r, n, d) && in_128_bits(r.numer) && in_128_bits(
        r.denom,
    )
}

/// Whether two fractions can be brought to a common denominator in 128 bits.
pub open spec fn common_denominator(x: Ratio, y: Ratio, l: int) -> bool {
    &&& l > 0
    &&& ratio::divides(x.denom, l)
    &&& ratio::divides(y.denom, l)
    &&& in_128_bits(l)
    &&& in_128_bits(x.numer * (l / x.denom))
    &&& in_128_bits(y.numer * (l / y.denom))
}

/// Whether two fractions can be added in 128 bits, over some common denominator.
pub open spec fn sum_in_128_bits(x: Ratio, y: Ratio) -> bool {
    exists|l: int| #[trigger]
        common_denominator(x, y, l) && in_128_bits(
            x.numer * (l / x.denom) + y.numer * (l / y.denom),
        )
}

/// Whether a fraction can be subtracted from another in 128 bits, over some common denominator.
pub open spec fn difference_in_128_bits(x: Ratio, y: Ratio) -> bool {
    exists|l: int| #[trigger]
        common_denominator(x, y, l) && in_128_bits(
            x.numer * (l / x.denom) - y.numer * (l / y.denom),
        )
}

/// What a common denominator scales is a multiple of what the least one scales.
proof fn lemma_scaled(n: int, b: int, c: int, l: int, k: int)
    requires
        b > 0,
        c > 0,
        ratio::divides(b, c),
        l == k * c,
    ensures
        n * (l / b) == k * (n * (c / b)),
{
    let m = c / b;
    vstd::arithmetic::div_mod::lemma_fundamental_div_mod(c, b);
    assert(l == b * (k * m)) by (nonlinear_arith)
        requires
            l == k * c,
            c == b * m,
    ;
    vstd::arithmetic::div_mod::lemma_div_multiples_vanish(k * m, b);
    assert(n * (k * m) == k * (n * m)) by (nonlinear_arith);
}

/// What is in range after scaling up was so before.
proof fn lemma_unscaled(k: int, x: int)
    requires
        k >= 1,
        in_128_bits(k * x),
    ensures
        in_128_bits(x),
{
    assert(x >= 0 ==> k * x >= x) by (nonlinear_arith)
        requires
            k >= 1,
    ;
    assert(x <= 0 ==> k * x <= x) by (nonlinear_arith)
        requires
            k >= 1,
    ;
}

/// Sums and differences of fractions can be computed if and only if some common denominator is
/// small enough.
pub proof fn law_sum_and_difference_range(x: Ratio, y: Ratio)
    requires
        x.denom > 0,
        y.denom > 0,
    ensures
        arithmetic::sum_fits(x, y) <==> sum_in_128_bits(x, y),
        arithmetic::difference_fits(x, y) <==> difference_in_128_bits(x, y),
{
    let (b, d) = (x.denom, y.denom);
    let c = ratio::lcm(b, d);
    ratio::lemma_lcm(b, d);
    vstd::arithmetic::div_mod::lemma_mod_multiples_basic(c / b, b);
    vstd::arithmetic::div_mod::lemma_mod_multiples_basic(c / d, d);
    assert(ratio::divides(b, c) && ratio::divides(d, c));
    if arithmetic::common_denominator_fits(x, y) {
        assert(common_denominator(x, y, c));
    }
    let (u, v) = (x.numer * (c / b), y.numer * (c / d));
    if sum_in_128_bits(x, y) {
        let l = choose|l: int| #[trigger]
            common_denominator(x, y, l) && in_128_bits(
                x.numer * (l / x.denom) + y.numer * (l / y.denom),
            );
        let k = ratio::lemma_lcm_least(b, d, l);
        lemma_scaled(x.numer, b, c, l, k);
        lemma_scaled(y.numer, d, c, l, k);
        assert(k * u + k * v == k * (u + v)) by (nonlinear_arith);
        lemma_unscaled(k, c);
        lemma_unscaled(k, u);
        lemma_unscaled(k, v);
        lemma_unscaled(k, u + v);
    }
    if difference_in_128_bits(x, y) {
        let l = choose|l: int| #[trigger]
            common_denominator(x, y, l) && in_128_bits(
                x.numer * (l / x.denom) - y.numer * (l / y.denom),
            );
        let k = ratio::lemma_lcm_least(b, d, l);
        lemma_scaled(x.numer, b, c, l, k);
        lemma_scaled(y.numer, d, c, l, k);
        assert(k * u - k * v == k * (u - v)) by (nonlinear_arith);
        lemma_unscaled(k, c);
        lemma_unscaled(k, u);
        lemma_unscaled(k, v);
        lemma_unscaled(k, u - v);
    }
}

/// Products and quotients of fractions can be computed if and only if they can be held.
pub proof fn law_product_and_quotient_range(x: Ratio, y: Ratio)
    requires
        ratio::lowest_terms(x),
        ratio::lowest_terms(y),
    ensures
        arithmetic::fits(x.times(y)) <==> quotient_in_128_bits(
            x.numer * y.numer,
            x.denom * y.denom,
        ),
        arithmetic::quotient_fits(x, y) <==> y.numer != 0 && quotient_in_128_bits(
            x.numer * y.denom,
            x.denom * y.numer,
        ),
        arithmetic::fits(x.negate()) <==> in_128_bits(-x.numer) && in_128_bits(x.denom),
{
    ratio::law_operations_are_exact(x, y);
    let (b, d) = (x.denom, y.denom);
    assert(b * d != 0) by (nonlinear_arith)
        requires
            b > 0,
            d > 0,
    ;
    let (n, m) = (x.numer * y.numer, b * d);
    if quotient_in_128_bits(n, m) {
        let r = choose|r: Ratio| #[trigger] ratio::is_quotient(r, n, m) && in_128_bits(r.numer)
            && in_128_bits(r.denom);
        ratio::law_quotient_is_unique(r, x.times(y), n, m);
    }
    if y.numer != 0 {
        let c = y.numer;
        assert(b * c != 0) by (nonlinear_arith)
            requires
                b > 0,
                c != 0,
        ;
        let (n, m) = (x.numer * d, b * c);
        if quotient_in_128_bits(n, m) {
            let r = choose|r: Ratio| #[trigger] ratio::is_quotient(r, n, m) && in_128_bits(r.numer)
                && in_128_bits(r.denom);
            ratio::law_quotient_is_unique(r, x.over(y), n, m);
        }
    }
}

/// The exponent of a base dimension, zero where it does not occur.
pub open spec fn at(d: Dim, n: Seq<char>) -> Ratio {
    if d.contains_key(n) {
        d[n]
    } else {
        Ratio { numer: 0, denom: 1 }
    }
}

/// Whether a dimension mentions no base dimension with the exponent zero.
pub open spec fn no_idle_factor(d: Dim) -> bool {
    forall|n: Seq<char>| #[trigger] d.contains_key(n) ==> d[n].numer != 0
}

/// Whether the exponents of a dimension are the sums of those of two others.
pub open spec fn adds_exponents(d: Dim, a: Dim, b: Dim) -> bool {
    &&& no_idle_factor(d)
    &&& forall|n: Seq<char>|
        ratio::is_quotient(
            #[trigger] at(d, n),
            at(a, n).numer * at(b, n).denom + at(b, n).numer * at(a, n).denom,
            at(a, n).denom * at(b, n).denom,
        )
}

/// Whether the exponents of a dimension are the differences of those of two others.
pub open spec fn subtracts_exponents(d: Dim, a: Dim, b: Dim) -> bool {
    &&& no_idle_factor(d)
    &&& forall|n: Seq<char>|
        ratio::is_quotient(
            #[trigger] at(d, n),
            at(a, n).numer * at(b, n).denom - at(b, n).numer * at(a, n).denom,
            at(a, n).denom * at(b, n).denom,
        )
}

/// Whether the exponents of a dimension are those of another, times a fraction.
pub open spec fn multiplies_exponents(d: Dim, a: Dim, e: Ratio) -> bool {
    &&& no_idle_factor(d)
    &&& forall|n: Seq<char>|
        ratio::is_quotient(
            #[trigger] at(d, n),
            at(a, n).numer * e.numer,
            at(a, n).denom * e.denom,
        )
}

/// Whether the exponents of a product can be computed in 128 bits.
pub open spec fn product_in_128_bits(a: Dim, b: Dim) -> bool {
    forall|n: Seq<char>|
        #![trigger a.contains_key(n), b.contains_key(n)]
        a.contains_key(n) && b.contains_key(n) ==> sum_in_128_bits(a[n], b[n])
}

/// Whether the exponents of a quotient can be computed in 128 bits: those of the divisor are
/// negated, and then added.
pub open spec fn division_in_128_bits(a: Dim, b: Dim) -> bool {
    &&& forall|n: Seq<char>| #[trigger]
        b.contains_key(n) ==> in_128_bits(-b[n].numer) && in_128_bits(b[n].denom)
    &&& forall|n: Seq<char>|
        #![trigger a.contains_key(n), b.contains_key(n)]
        a.contains_key(n) && b.contains_key(n) ==> sum_in_128_bits(
            a[n],
            Ratio { numer: -b[n].numer, denom: b[n].denom },
        )
}

/// Whether the exponents of a power can be computed in 128 bits.
pub open spec fn power_in_128_bits(d: Dim, e: Ratio) -> bool {
    forall|n: Seq<char>| #[trigger]
        d.contains_key(n) ==> quotient_in_128_bits(d[n].numer * e.numer, d[n].denom * e.denom)
}

/// Exponents are in lowest terms.
proof fn lemma_at(d: Dim, n: Seq<char>)
    requires
        dim::valid(d),
    ensures
        at(d, n) == dim::exponent(d, n),
        at(d, n).reduced(),
        ratio::lowest_terms(at(d, n)),
{
    ratio::lemma_from_integer(0);
    ratio::law_reduced_is_lowest_terms(at(d, n));
}

/// Dimensions with the same exponents are the same.
pub proof fn law_exponents_decide(a: Dim, b: Dim)
    requires
        no_idle_factor(a),
        no_idle_factor(b),
        forall|n: Seq<char>| #[trigger] at(a, n) == at(b, n),
    ensures
        a == b,
{
    assert forall|n: Seq<char>| #[trigger] a.contains_key(n) == b.contains_key(n) by {
        assert(at(a, n) == at(b, n));
    }
    assert forall|n: Seq<char>| a.contains_key(n) implies #[trigger] a[n] == b[n] by {
        assert(at(a, n) == at(b, n));
    }
    assert(a =~= b);
}

/// Plain numbers have no base dimension.
pub proof fn law_plain_numbers()
    ensures
        dim::unity() == Map::<Seq<char>, Ratio>::empty(),
{
}

/// A power of a base dimension has one exponent.
pub proof fn law_factor_has_one_exponent(name: Seq<char>, e: Ratio)
    requires
        ratio::lowest_terms(e),
    ensures
        no_idle_factor(dim::factor(name, e)),
        at(dim::factor(name, e), name) == e,
        forall|n: Seq<char>|
            n != name ==> #[trigger] at(dim::factor(name, e), n) == (Ratio { numer: 0, denom: 1 }),
{
    ratio::law_reduced_is_lowest_terms(e);
    if e.numer == 0 {
        ratio::lemma_zero(e);
    }
}

/// Multiplying dimensions adds their exponents, and is possible if and only if the sums can be
/// computed.
pub proof fn law_multiplying_adds_exponents(a: Dim, b: Dim)
    requires
        dim::valid(a),
        dim::valid(b),
    ensures
        adds_exponents(dim::product(a, b), a, b),
        registry::product_fits(a, b) <==> product_in_128_bits(a, b),
{
    let d = dim::product(a, b);
    dim::lemma_product(a, b);
    assert forall|n: Seq<char>|
        ratio::is_quotient(
            #[trigger] at(d, n),
            at(a, n).numer * at(b, n).denom + at(b, n).numer * at(a, n).denom,
            at(a, n).denom * at(b, n).denom,
        ) by {
        lemma_at(a, n);
        lemma_at(b, n);
        lemma_at(d, n);
        ratio::law_operations_are_exact(at(a, n), at(b, n));
        assert(dim::exponent(d, n) == dim::exponent(a, n).plus(dim::exponent(b, n)));
    }
    assert forall|n: Seq<char>|
        #![trigger a.contains_key(n), b.contains_key(n)]
        a.contains_key(n) && b.contains_key(n) implies arithmetic::sum_fits(a[n], b[n])
        == sum_in_128_bits(a[n], b[n]) by {
        law_sum_and_difference_range(a[n], b[n]);
    }
}

/// Dividing dimensions subtracts their exponents, and is possible if and only if the differences
/// can be computed.
pub proof fn law_dividing_subtracts_exponents(a: Dim, b: Dim)
    requires
        dim::valid(a),
        dim::valid(b),
    ensures
        subtracts_exponents(dim::quotient(a, b), a, b),
        registry::quotient_fits(a, b) <==> division_in_128_bits(a, b),
{
    let i = dim::inverse(b);
    let d = dim::quotient(a, b);
    dim::lemma_inverse(b);
    dim::lemma_product(a, i);
    assert forall|n: Seq<char>|
        ratio::is_quotient(
            #[trigger] at(d, n),
            at(a, n).numer * at(b, n).denom - at(b, n).numer * at(a, n).denom,
            at(a, n).denom * at(b, n).denom,
        ) by {
        lemma_at(a, n);
        lemma_at(b, n);
        lemma_at(d, n);
        ratio::law_operations_are_exact(at(a, n), at(b, n));
        ratio::law_operations_are_undone(at(a, n), at(b, n));
        assert(dim::exponent(i, n) == dim::exponent(b, n).negate());
        assert(dim::exponent(d, n) == dim::exponent(a, n).plus(dim::exponent(i, n)));
    }
    assert forall|n: Seq<char>| #[trigger] b.contains_key(n) implies arithmetic::fits(
        b[n].negate(),
    ) == (in_128_bits(-b[n].numer) && in_128_bits(b[n].denom)) by {}
    assert forall|n: Seq<char>|
        #![trigger a.contains_key(n), i.contains_key(n)]
        #![trigger a.contains_key(n), b.contains_key(n)]
        a.contains_key(n) && b.contains_key(n) implies i.contains_key(n) && arithmetic::sum_fits(
        a[n],
        i[n],
    ) == sum_in_128_bits(a[n], Ratio { numer: -b[n].numer, denom: b[n].denom }) by {
        law_sum_and_difference_range(a[n], i[n]);
    }
    assert forall|n: Seq<char>| #[trigger] i.contains_key(n) == b.contains_key(n) by {}
}

/// A power of a dimension multiplies its exponents, and is possible if and only if the products can
/// be held.
pub proof fn law_powers_multiply_exponents(a: Dim, e: Ratio)
    requires
        dim::valid(a),
        ratio::lowest_terms(e),
    ensures
        multiplies_exponents(dim::power(a, e), a, e),
        registry::power_fits(a, e) <==> power_in_128_bits(a, e),
{
    let d = dim::power(a, e);
    ratio::law_reduced_is_lowest_terms(e);
    dim::lemma_power(a, e);
    assert forall|n: Seq<char>|
        ratio::is_quotient(
            #[trigger] at(d, n),
            at(a, n).numer * e.numer,
            at(a, n).denom * e.denom,
        ) by {
        lemma_at(a, n);
        lemma_at(d, n);
        ratio::law_operations_are_exact(at(a, n), e);
        assert(dim::exponent(d, n) == dim::exponent(a, n).times(e));
    }
    assert forall|n: Seq<char>| #[trigger] a.contains_key(n) implies arithmetic::fits(a[n].times(e))
        == quotient_in_128_bits(a[n].numer * e.numer, a[n].denom * e.denom) by {
        lemma_at(a, n);
        law_product_and_quotient_range(a[n], e);
    }
}

/// An inverse has the negated exponents, and is possible if and only if they can be held.
pub proof fn law_inverting_negates_exponents(a: Dim)
    requires
        dim::valid(a),
    ensures
        forall|n: Seq<char>| #[trigger]
            dim::inverse(a).contains_key(n) == a.contains_key(n) && (a.contains_key(n) ==> {
                &&& dim::inverse(a)[n].numer == -a[n].numer
                &&& dim::inverse(a)[n].denom == a[n].denom
            }),
        registry::inverse_fits(a) <==> forall|n: Seq<char>| #[trigger]
            a.contains_key(n) ==> in_128_bits(-a[n].numer) && in_128_bits(a[n].denom),
{
}

/// An expression with a binary operator.
pub open spec fn binary(
    op: ast::BinaryOperator,
    x: ast::Expression,
    y: ast::Expression,
) -> ast::Expression {
    ast::Expression::BinaryOperator(op, Box::new(x), Box::new(y))
}

/// The value of a number in an exponent is its rational value.
pub proof fn law_value_of_number(n: ast::Number)
    ensures
        match n.exponent {
            Some(r) => rules::const_value(ExpressionView::Scalar(n)) == Ok::<
                Ratio,
                Fault<ErrorView>,
            >(r@),
            None => rules::const_value(ExpressionView::Scalar(n)) == Err::<Ratio, Fault<ErrorView>>(
                Fault::Undefined,
            ),
        },
{
}

/// Variables, units and calls have no value in an exponent.
pub proof fn law_names_have_no_value(name: Seq<char>, args: Seq<ExpressionView>, d: Dim)
    ensures
        rules::const_value(ExpressionView::Identifier(name, d)) == Err::<Ratio, Fault<ErrorView>>(
            Fault::Rejected(ErrorView::UnsupportedConstExpression("identifier"@)),
        ),
        rules::const_value(ExpressionView::FunctionCall(name, args, d)) == Err::<
            Ratio,
            Fault<ErrorView>,
        >(Fault::Rejected(ErrorView::UnsupportedConstExpression("function call"@))),
{
}

/// The value of a negation is the negative value, unless that cannot be held. What has no value has
/// no negative one.
pub proof fn law_value_of_negation(x: ExpressionView, d: Dim)
    ensures
        ({
            let negated = rules::const_value(ExpressionView::Negate(Box::new(x), d));
            match rules::const_value(x) {
                Err(f) => negated == Err::<Ratio, Fault<ErrorView>>(f),
                Ok(v) => if in_128_bits(-v.numer) && in_128_bits(v.denom) {
                    negated matches Ok(w) && w.numer == -v.numer && w.denom == v.denom
                } else {
                    negated == Err::<Ratio, Fault<ErrorView>>(Fault::Undefined)
                },
            }
        }),
{
    reveal_with_fuel(rules::const_value, 2);
}

/// An operator has no value if an operand has none, and the left one is the first to matter.
pub proof fn law_value_needs_operands(
    op: ast::BinaryOperator,
    x: ExpressionView,
    y: ExpressionView,
    d: Dim,
)
    ensures
        ({
            let t = ExpressionView::BinaryOperator(op, Box::new(x), Box::new(y), d);
            &&& rules::const_value(x) matches Err(f) ==> rules::const_value(t) == Err::<
                Ratio,
                Fault<ErrorView>,
            >(f)
            &&& rules::const_value(x) is Ok ==> (rules::const_value(y) matches Err(f)
                ==> rules::const_value(t) == Err::<Ratio, Fault<ErrorView>>(f))
        }),
{
    reveal_with_fuel(rules::const_value, 2);
}

/// The value of a sum is the sum of the values, and so it is for differences, products and
/// quotients; there is one if and only if it can be computed. The sign counts, and nothing is
/// divided by zero.
pub proof fn law_values_are_exact(
    op: ast::BinaryOperator,
    x: ExpressionView,
    y: ExpressionView,
    d: Dim,
    v: Ratio,
    w: Ratio,
)
    requires
        rules::const_value(x) == Ok::<Ratio, Fault<ErrorView>>(v),
        rules::const_value(y) == Ok::<Ratio, Fault<ErrorView>>(w),
        ratio::lowest_terms(v),
        ratio::lowest_terms(w),
    ensures
        ({
            let r = rules::const_value(
                ExpressionView::BinaryOperator(op, Box::new(x), Box::new(y), d),
            );
            let undefined = Err::<Ratio, Fault<ErrorView>>(Fault::Undefined);
            match op {
                ast::BinaryOperator::Add => if sum_in_128_bits(v, w) {
                    &&& r matches Ok(u)
                    &&& ratio::is_quotient(
                        u,
                        v.numer * w.denom + w.numer * v.denom,
                        v.denom * w.denom,
                    )
                } else {
                    r == undefined
                },
                ast::BinaryOperator::Sub => if difference_in_128_bits(v, w) {
                    &&& r matches Ok(u)
                    &&& ratio::is_quotient(
                        u,
                        v.numer * w.denom - w.numer * v.denom,
                        v.denom * w.denom,
                    )
                } else {
                    r == undefined
                },
                ast::BinaryOperator::Mul => if quotient_in_128_bits(
                    v.numer * w.numer,
                    v.denom * w.denom,
                ) {
                    &&& r matches Ok(u)
                    &&& ratio::is_quotient(u, v.numer * w.numer, v.denom * w.denom)
                } else {
                    r == undefined
                },
                ast::BinaryOperator::Div => if w.numer != 0 && quotient_in_128_bits(
                    v.numer * w.denom,
                    v.denom * w.numer,
                ) {
                    &&& r matches Ok(u)
                    &&& ratio::is_quotient(u, v.numer * w.denom, v.denom * w.numer)
                } else {
                    r == undefined
                },
                ast::BinaryOperator::Power => r == Err::<Ratio, Fault<ErrorView>>(
                    Fault::Rejected(ErrorView::UnsupportedConstExpression("exponentiation"@)),
                ),
                ast::BinaryOperator::ConvertTo => r == Err::<Ratio, Fault<ErrorView>>(
                    Fault::Rejected(ErrorView::UnsupportedConstExpression("conversion"@)),
                ),
            }
        }),
{
    reveal_with_fuel(rules::const_value, 2);
    ratio::law_operations_are_exact(v, w);
    law_sum_and_difference_range(v, w);
    law_product_and_quotient_range(v, w);
}

/// A number is a plain number.
pub proof fn law_type_of_number(scope: Scope, n: ast::Number)
    ensures
        ({
            &&& rules::check(scope, ast::Expression::Scalar(n)) matches Ok(t)
            &&& t == ExpressionView::Scalar(n)
            &&& t.get_type() == Map::<Seq<char>, Ratio>::empty()
        }),
{
}

/// A name has the dimension that the table of variables and units gives it.
pub proof fn law_type_of_identifier(scope: Scope, name: String)
    ensures
        ({
            let r = rules::check(scope, ast::Expression::Identifier(name));
            if scope.identifiers.contains_key(name@) {
                let d = scope.identifiers[name@];
                &&& r == Ok::<ExpressionView, Fault<ErrorView>>(
                    ExpressionView::Identifier(name@, d),
                )
                &&& r->Ok_0.get_type() == d
            } else {
                r == Err::<ExpressionView, Fault<ErrorView>>(
                    Fault::Rejected(ErrorView::UnknownIdentifier(name@)),
                )
            }
        }),
{
}

/// A negation is accepted if and only if what it negates is, and has its dimension.
pub proof fn law_type_of_negation(scope: Scope, x: ast::Expression)
    ensures
        ({
            let r = rules::check(scope, ast::Expression::Negate(Box::new(x)));
            match rules::check(scope, x) {
                Err(f) => r == Err::<ExpressionView, Fault<ErrorView>>(f),
                Ok(u) => {
                    &&& r matches Ok(t)
                    &&& t.get_type() == u.get_type()
                    &&& t == ExpressionView::Negate(Box::new(u), u.get_type())
                },
            }
        }),
{
    reveal_with_fuel(rules::check, 2);
}

/// An operator is refused if an operand is, and the left one is the first to matter.
pub proof fn law_operands_are_checked(
    scope: Scope,
    op: ast::BinaryOperator,
    x: ast::Expression,
    y: ast::Expression,
)
    ensures
        ({
            let r = rules::check(scope, binary(op, x, y));
            &&& rules::check(scope, x) matches Err(f) ==> r == Err::<
                ExpressionView,
                Fault<ErrorView>,
            >(f)
            &&& rules::check(scope, x) is Ok ==> (rules::check(scope, y) matches Err(f) ==> r
                == Err::<ExpressionView, Fault<ErrorView>>(f))
        }),
{
    reveal_with_fuel(rules::check, 2);
}

/// What an operator is applied to is kept, and so is the dimension of the result, which is the one
/// that counts for what surrounds it.
pub proof fn law_operands_are_kept(
    scope: Scope,
    op: ast::BinaryOperator,
    x: ast::Expression,
    y: ast::Expression,
    t: ExpressionView,
)
    requires
        rules::check(scope, binary(op, x, y)) == Ok::<ExpressionView, Fault<ErrorView>>(t),
    ensures
        rules::check(scope, x) matches Ok(u) && rules::check(scope, y) matches Ok(v) && t
            == ExpressionView::BinaryOperator(op, Box::new(u), Box::new(v), t.get_type()),
{
    reveal_with_fuel(rules::check, 2);
}

/// Sums, differences and conversions are accepted if and only if both sides have the same
/// dimension, and then have it too.
pub proof fn law_type_of_sum_and_conversion(
    scope: Scope,
    op: ast::BinaryOperator,
    x: ast::Expression,
    y: ast::Expression,
    u: ExpressionView,
    v: ExpressionView,
)
    requires
        op is Add || op is Sub || op is ConvertTo,
        rules::check(scope, x) == Ok::<ExpressionView, Fault<ErrorView>>(u),
        rules::check(scope, y) == Ok::<ExpressionView, Fault<ErrorView>>(v),
    ensures
        ({
            let r = rules::check(scope, binary(op, x, y));
            if u.get_type() == v.get_type() {
                r matches Ok(t) && t.get_type() == u.get_type()
            } else {
                r == Err::<ExpressionView, Fault<ErrorView>>(
                    Fault::Rejected(
                        ErrorView::IncompatibleDimensions(
                            "binary operator"@,
                            " left hand side"@,
                            u.get_type(),
                            "right hand side"@,
                            v.get_type(),
                        ),
                    ),
                )
            }
        }),
{
    reveal_with_fuel(rules::check, 2);
}

/// The exponents of a product are the sums of those of the factors. It is accepted if and only if
/// they can be computed.
pub proof fn law_type_of_product(
    bases: Set<Seq<char>>,
    scope: Scope,
    x: ast::Expression,
    y: ast::Expression,
    u: ExpressionView,
    v: ExpressionView,
)
    requires
        laws::scope_valid(bases, scope),
        ast::expression_valid(x),
        ast::expression_valid(y),
        rules::check(scope, x) == Ok::<ExpressionView, Fault<ErrorView>>(u),
        rules::check(scope, y) == Ok::<ExpressionView, Fault<ErrorView>>(v),
    ensures
        ({
            let r = rules::check(scope, binary(ast::BinaryOperator::Mul, x, y));
            if product_in_128_bits(u.get_type(), v.get_type()) {
                r matches Ok(t) && adds_exponents(t.get_type(), u.get_type(), v.get_type())
            } else {
                r == Err::<ExpressionView, Fault<ErrorView>>(Fault::Undefined)
            }
        }),
{
    reveal_with_fuel(rules::check, 2);
    laws::law_check_valid(bases, scope, x, u);
    laws::law_check_valid(bases, scope, y, v);
    law_multiplying_adds_exponents(u.get_type(), v.get_type());
}

/// The exponents of a quotient are those of the dividend minus those of the divisor. It is accepted
/// if and only if they can be computed.
pub proof fn law_type_of_quotient(
    bases: Set<Seq<char>>,
    scope: Scope,
    x: ast::Expression,
    y: ast::Expression,
    u: ExpressionView,
    v: ExpressionView,
)
    requires
        laws::scope_valid(bases, scope),
        ast::expression_valid(x),
        ast::expression_valid(y),
        rules::check(scope, x) == Ok::<ExpressionView, Fault<ErrorView>>(u),
        rules::check(scope, y) == Ok::<ExpressionView, Fault<ErrorView>>(v),
    ensures
        ({
            let r = rules::check(scope, binary(ast::BinaryOperator::Div, x, y));
            if division_in_128_bits(u.get_type(), v.get_type()) {
                r matches Ok(t) && subtracts_exponents(t.get_type(), u.get_type(), v.get_type())
            } else {
                r == Err::<ExpressionView, Fault<ErrorView>>(Fault::Undefined)
            }
        }),
{
    reveal_with_fuel(rules::check, 2);
    laws::law_check_valid(bases, scope, x, u);
    laws::law_check_valid(bases, scope, y, v);
    law_dividing_subtracts_exponents(u.get_type(), v.get_type());
}

/// An exponent must be a plain number. A power of a plain number is one, whatever the value of the
/// exponent. Otherwise the exponents of the dimension are multiplied with that value, and the power
/// is accepted if and only if there is a value and the products can be held.
pub proof fn law_type_of_power(
    bases: Set<Seq<char>>,
    scope: Scope,
    x: ast::Expression,
    y: ast::Expression,
    u: ExpressionView,
    v: ExpressionView,
)
    requires
        laws::scope_valid(bases, scope),
        ast::expression_valid(x),
        ast::expression_valid(y),
        rules::check(scope, x) == Ok::<ExpressionView, Fault<ErrorView>>(u),
        rules::check(scope, y) == Ok::<ExpressionView, Fault<ErrorView>>(v),
    ensures
        ({
            let r = rules::check(scope, binary(ast::BinaryOperator::Power, x, y));
            let plain = Map::<Seq<char>, Ratio>::empty();
            if v.get_type() != plain {
                r == Err::<ExpressionView, Fault<ErrorView>>(
                    Fault::Rejected(ErrorView::NonScalarExponent(v.get_type())),
                )
            } else if u.get_type() == plain {
                r matches Ok(t) && t.get_type() == plain
            } else {
                match rules::const_value(v) {
                    Err(f) => r == Err::<ExpressionView, Fault<ErrorView>>(f),
                    Ok(e) => if power_in_128_bits(u.get_type(), e) {
                        r matches Ok(t) && multiplies_exponents(t.get_type(), u.get_type(), e)
                    } else {
                        r == Err::<ExpressionView, Fault<ErrorView>>(Fault::Undefined)
                    },
                }
            }
        }),
{
    reveal_with_fuel(rules::check, 2);
    laws::law_check_valid(bases, scope, x, u);
    laws::law_check_valid(bases, scope, y, v);
    if let Ok(e) = rules::const_value(v) {
        laws::law_const_value_reduced(bases, v, e);
        ratio::law_reduced_is_lowest_terms(e);
        law_powers_multiply_exponents(u.get_type(), e);
    }
}

/// Whether typed expressions are what comes of expressions, one by one.
pub open spec fn checked_one_by_one(
    scope: Scope,
    es: Seq<ast::Expression>,
    ts: Seq<ExpressionView>,
) -> bool {
    &&& ts.len() == es.len()
    &&& forall|i: int|
        0 <= i < es.len() ==> rules::check(scope, #[trigger] es[i]) == Ok::<
            ExpressionView,
            Fault<ErrorView>,
        >(ts[i])
}

proof fn lemma_check_list(scope: Scope, es: Seq<ast::Expression>, ts: Seq<ExpressionView>)
    requires
        checked_one_by_one(scope, es, ts),
    ensures
        rules::check_list(scope, es) == Ok::<Seq<ExpressionView>, Fault<ErrorView>>(ts),
    decreases es.len(),
{
    if es.len() > 0 {
        let (fs, us) = (es.drop_last(), ts.drop_last());
        assert forall|i: int| 0 <= i < fs.len() implies rules::check(scope, #[trigger] fs[i])
            == Ok::<ExpressionView, Fault<ErrorView>>(us[i]) by {
            assert(fs[i] == es[i]);
        }
        lemma_check_list(scope, fs, us);
        assert(rules::check(scope, es[es.len() - 1]) == Ok::<ExpressionView, Fault<ErrorView>>(
            ts[es.len() - 1],
        ));
        assert(us.push(ts.last()) =~= ts);
    } else {
        assert(ts =~= Seq::empty());
    }
}

proof fn lemma_first_mismatch(ds: Seq<Dim>, ts: Seq<ExpressionView>, j: nat, k: nat)
    requires
        ds.len() == ts.len(),
        j <= k <= ts.len(),
        forall|i: int| j <= i < k ==> (#[trigger] ts[i]).get_type() == ds[i],
        k < ts.len() ==> ts[k as int].get_type() != ds[k as int],
    ensures
        rules::first_mismatch(ds, ts, j) == if k < ts.len() {
            Some(k)
        } else {
            None
        },
    decreases k - j,
{
    if j < k {
        assert(ts[j as int].get_type() == ds[j as int]);
        lemma_first_mismatch(ds, ts, j + 1, k);
    }
}

/// A call of a function that has not been declared is refused, and so is one with another number of
/// arguments than the function has parameters.
pub proof fn law_call_needs_function(scope: Scope, name: String, args: Vec<ast::Expression>)
    ensures
        ({
            let r = rules::check(scope, ast::Expression::FunctionCall(name, args));
            let arity = scope.functions[name@].parameters.len();
            if !scope.functions.contains_key(name@) {
                r == Err::<ExpressionView, Fault<ErrorView>>(
                    Fault::Rejected(ErrorView::UnknownFunction(name@)),
                )
            } else if arity != args@.len() {
                r == Err::<ExpressionView, Fault<ErrorView>>(
                    Fault::Rejected(ErrorView::WrongArity(name@, arity, args@.len())),
                )
            } else {
                true
            }
        }),
{
}

/// A call is refused as the first of its arguments that is refused.
pub proof fn law_call_needs_arguments(
    scope: Scope,
    name: String,
    args: Vec<ast::Expression>,
    k: int,
    f: Fault<ErrorView>,
)
    requires
        scope.functions.contains_key(name@),
        scope.functions[name@].parameters.len() == args@.len(),
        0 <= k < args@.len(),
        forall|i: int| 0 <= i < k ==> rules::check(scope, #[trigger] args@[i]) is Ok,
        rules::check(scope, args@[k]) == Err::<ExpressionView, Fault<ErrorView>>(f),
    ensures
        rules::check(scope, ast::Expression::FunctionCall(name, args)) == Err::<
            ExpressionView,
            Fault<ErrorView>,
        >(f),
{
    let es = args@.take(k);
    let ts = Seq::new(k as nat, |i: int| rules::check(scope, es[i])->Ok_0);
    assert forall|i: int| 0 <= i < es.len() implies rules::check(scope, #[trigger] es[i]) == Ok::<
        ExpressionView,
        Fault<ErrorView>,
    >(ts[i]) by {
        assert(es[i] == args@[i]);
    }
    lemma_check_list(scope, es, ts);
    assert(args@.take(k + 1).drop_last() == es);
    assert(args@.take(k + 1).last() == args@[k]);
    rules::lemma_check_list_refused(scope, args@, k + 1);
}

/// A call with as many arguments as the function has parameters is accepted if and only if each
/// argument has the dimension of its parameter, and then has the dimension of the result of the
/// function. Else the first argument that does not fit is named, counted from one.
pub proof fn law_type_of_call(
    scope: Scope,
    name: String,
    args: Vec<ast::Expression>,
    ts: Seq<ExpressionView>,
    k: nat,
)
    requires
        scope.functions.contains_key(name@),
        scope.functions[name@].parameters.len() == args@.len(),
        checked_one_by_one(scope, args@, ts),
        k <= ts.len(),
        forall|i: int|
            0 <= i < k ==> (#[trigger] ts[i]).get_type() == scope.functions[name@].parameters[i],
        k < ts.len() ==> ts[k as int].get_type() != scope.functions[name@].parameters[k as int],
    ensures
        ({
            let r = rules::check(scope, ast::Expression::FunctionCall(name, args));
            let signature = scope.functions[name@];
            if k == ts.len() {
                &&& r == Ok::<ExpressionView, Fault<ErrorView>>(
                    ExpressionView::FunctionCall(name@, ts, signature.return_type),
                )
                &&& r->Ok_0.get_type() == signature.return_type
            } else {
                r == Err::<ExpressionView, Fault<ErrorView>>(
                    Fault::Rejected(
                        ErrorView::IncompatibleDimensions(
                            "argument "@ + rules::decimal(k + 1) + " of function call to '"@ + name@
                                + "'"@,
                            "parameter type"@,
                            signature.parameters[k as int],
                            " argument type"@,
                            ts[k as int].get_type(),
                        ),
                    ),
                )
            }
        }),
{
    lemma_check_list(scope, args@, ts);
    lemma_first_mismatch(scope.functions[name@].parameters, ts, 0, k);
}

/// The number that a text of decimal digits stands for.
pub open spec fn number_of_digits(s: Seq<char>) -> int
    decreases s.len(),
{
    if s.len() == 0 {
        0
    } else {
        number_of_digits(s.drop_last()) * 10 + (s.last() as int - '0' as int)
    }
}

/// Numbers are written with decimal digits, without a leading zero.
pub proof fn law_decimal_digits(n: nat)
    ensures
        rules::decimal(n).len() > 0,
        number_of_digits(rules::decimal(n)) == n,
        forall|i: int| 0 <= i < rules::decimal(n).len() ==> '0' <= #[trigger] rules::decimal(n)[i] <= '9',
        n > 0 ==> rules::decimal(n)[0] != '0',
        n == 0 ==> rules::decimal(n).len() == 1,
    decreases n,
{
    let s = rules::decimal(n);
    let digits = seq!['0', '1', '2', '3', '4', '5', '6', '7', '8', '9'];
    let d = digits[(n % 10) as int];
    assert(d as int - '0' as int == n % 10);
    assert(s.last() == d);
    if n >= 10 {
        law_decimal_digits(n / 10);
        assert(s.drop_last() =~= rules::decimal(n / 10));
        assert forall|i: int| 0 <= i < s.len() implies '0' <= #[trigger] s[i] <= '9' by {
            if i < s.len() - 1 {
                assert(s[i] == rules::decimal(n / 10)[i]);
            }
        }
        assert(s[0] == rules::decimal(n / 10)[0]);
    } else {
        assert(number_of_digits(s.drop_last()) == 0);
    }
}

/// The dimension of an expression that is accepted.
pub open spec fn dimension_of(scope: Scope, e: ast::Expression) -> Dim {
    rules::check(scope, e)->Ok_0.get_type()
}

/// A variable can be declared with a conversion and the dimension of what is converted.
pub proof fn law_conversion_keeps_dimension(
    c: CheckerView,
    name: String,
    x: ast::Expression,
    y: ast::Expression,
    annotation: ast::DimensionExpression,
)
    requires
        rules::check(c.scope, binary(ast::BinaryOperator::ConvertTo, x, y)) is Ok,
        rules::represent(c.dims, annotation) == Ok::<Dim, Fault<RegistryErrorView>>(
            dimension_of(c.scope, x),
        ),
    ensures
        dimension_of(c.scope, binary(ast::BinaryOperator::ConvertTo, x, y)) == dimension_of(
            c.scope,
            x,
        ),
        dimension_of(c.scope, x) == dimension_of(c.scope, y),
        ({
            let (after, r) = rules::check_statement(
                c,
                ast::Statement::DeclareVariable(
                    name,
                    binary(ast::BinaryOperator::ConvertTo, x, y),
                    Some(annotation),
                ),
            );
            &&& r is Ok
            &&& after.scope.identifiers[name@] == dimension_of(c.scope, x)
        }),
{
    reveal_with_fuel(rules::check, 2);
}

/// What is accepted in a power: the base, an exponent that is a plain number, and its value in
/// lowest terms, unless the base is a plain number too.
proof fn lemma_accepted_power(
    bases: Set<Seq<char>>,
    scope: Scope,
    x: ast::Expression,
    p: ast::Expression,
) -> (e: Ratio)
    requires
        laws::scope_valid(bases, scope),
        ast::expression_valid(x),
        ast::expression_valid(p),
        rules::check(scope, binary(ast::BinaryOperator::Power, x, p)) is Ok,
    ensures
        rules::check(scope, x) is Ok,
        rules::check(scope, p) is Ok,
        dim::valid(dimension_of(scope, x)),
        dim::valid(dimension_of(scope, binary(ast::BinaryOperator::Power, x, p))),
        dimension_of(scope, x) == dim::unity() ==> dimension_of(
            scope,
            binary(ast::BinaryOperator::Power, x, p),
        ) == dim::unity(),
        dimension_of(scope, x) != dim::unity() ==> {
            &&& e.reduced()
            &&& rules::const_value(rules::check(scope, p)->Ok_0) == Ok::<Ratio, Fault<ErrorView>>(e)
            &&& dimension_of(scope, binary(ast::BinaryOperator::Power, x, p)) == dim::power(
                dimension_of(scope, x),
                e,
            )
        },
{
    reveal_with_fuel(rules::check, 2);
    let u = rules::check(scope, x)->Ok_0;
    let v = rules::check(scope, p)->Ok_0;
    laws::law_check_valid(bases, scope, x, u);
    laws::law_check_valid(bases, scope, p, v);
    laws::law_check_valid(
        bases,
        scope,
        binary(ast::BinaryOperator::Power, x, p),
        rules::check(scope, binary(ast::BinaryOperator::Power, x, p))->Ok_0,
    );
    let e = rules::const_value(v)->Ok_0;
    if u.get_type() != dim::unity() {
        laws::law_const_value_reduced(bases, v, e);
    }
    e
}

/// A power to a difference is undone by the power to what was subtracted: where both are accepted,
/// `x^(p - q) * x^q` has the dimension of `x^p`.
pub proof fn law_power_of_difference(
    bases: Set<Seq<char>>,
    scope: Scope,
    x: ast::Expression,
    p: ast::Expression,
    q: ast::Expression,
)
    requires
        laws::scope_valid(bases, scope),
        ast::expression_valid(x),
        ast::expression_valid(p),
        ast::expression_valid(q),
        rules::check(
            scope,
            binary(
                ast::BinaryOperator::Mul,
                binary(ast::BinaryOperator::Power, x, binary(ast::BinaryOperator::Sub, p, q)),
                binary(ast::BinaryOperator::Power, x, q),
            ),
        ) is Ok,
        rules::check(scope, binary(ast::BinaryOperator::Power, x, p)) is Ok,
    ensures
        dimension_of(
            scope,
            binary(
                ast::BinaryOperator::Mul,
                binary(ast::BinaryOperator::Power, x, binary(ast::BinaryOperator::Sub, p, q)),
                binary(ast::BinaryOperator::Power, x, q),
            ),
        ) == dimension_of(scope, binary(ast::BinaryOperator::Power, x, p)),
{
    let difference = binary(ast::BinaryOperator::Sub, p, q);
    let l = binary(ast::BinaryOperator::Power, x, difference);
    let r = binary(ast::BinaryOperator::Power, x, q);
    assert(rules::check(scope, l) is Ok && rules::check(scope, r) is Ok && dimension_of(
        scope,
        binary(ast::BinaryOperator::Mul, l, r),
    ) == dim::product(dimension_of(scope, l), dimension_of(scope, r))) by {
        reveal_with_fuel(rules::check, 2);
    }
    assert(ast::expression_valid(difference)) by {
        reveal_with_fuel(ast::expression_valid, 2);
    }
    let a = lemma_accepted_power(bases, scope, x, p);
    let b = lemma_accepted_power(bases, scope, x, q);
    let c = lemma_accepted_power(bases, scope, x, difference);
    let d = dimension_of(scope, x);
    if d == dim::unity() {
        dim::law_unity_is_neutral(d);
    } else {
        assert(c == a.minus(b)) by {
            reveal_with_fuel(rules::check, 2);
            reveal_with_fuel(rules::const_value, 2);
        }
        ratio::law_operations_are_undone(a, b);
        dim::law_power_sum(d, c, b);
    }
}

/// A power of a power has the product of the exponents: where both are accepted, `(x^p)^q` has the
/// dimension of `x^(p * q)`.
pub proof fn law_power_of_power(
    bases: Set<Seq<char>>,
    scope: Scope,
    x: ast::Expression,
    p: ast::Expression,
    q: ast::Expression,
)
    requires
        laws::scope_valid(bases, scope),
        ast::expression_valid(x),
        ast::expression_valid(p),
        ast::expression_valid(q),
        rules::check(
            scope,
            binary(ast::BinaryOperator::Power, binary(ast::BinaryOperator::Power, x, p), q),
        ) is Ok,
        rules::check(
            scope,
            binary(ast::BinaryOperator::Power, x, binary(ast::BinaryOperator::Mul, p, q)),
        ) is Ok,
    ensures
        dimension_of(
            scope,
            binary(ast::BinaryOperator::Power, binary(ast::BinaryOperator::Power, x, p), q),
        ) == dimension_of(
            scope,
            binary(ast::BinaryOperator::Power, x, binary(ast::BinaryOperator::Mul, p, q)),
        ),
{
    let product = binary(ast::BinaryOperator::Mul, p, q);
    let inner = binary(ast::BinaryOperator::Power, x, p);
    assert(ast::expression_valid(product) && ast::expression_valid(inner)) by {
        reveal_with_fuel(ast::expression_valid, 2);
    }
    let b = lemma_accepted_power(bases, scope, inner, q);
    let a = lemma_accepted_power(bases, scope, x, p);
    let c = lemma_accepted_power(bases, scope, x, product);
    let d = dimension_of(scope, x);
    if d != dim::unity() {
        assert(rules::const_value(rules::check(scope, q)->Ok_0) is Ok && c == a.times(
            rules::const_value(rules::check(scope, q)->Ok_0)->Ok_0,
        )) by {
            reveal_with_fuel(rules::check, 2);
            reveal_with_fuel(rules::const_value, 2);
        }
        let e = rules::const_value(rules::check(scope, q)->Ok_0)->Ok_0;
        assert(e.reduced()) by {
            let v = rules::check(scope, q)->Ok_0;
            laws::law_check_valid(bases, scope, q, v);
            laws::law_const_value_reduced(bases, v, e);
        }
        dim::law_power_product(d, a, e);
        if dimension_of(scope, inner) == dim::unity() {
            lemma_power_of_unity(e);
        }
    }
}

proof fn lemma_power_of_unity(e: Ratio)
    requires
        e.reduced(),
    ensures
        dim::power(dim::unity(), e) == dim::unity(),
{
    dim::lemma_power(dim::unity(), e);
    assert(dim::power(dim::unity(), e) =~= dim::unity());
}

/// A power to a quotient is undone by the power to the divisor: where both are accepted,
/// `(x^(p / q))^q` has the dimension of `x^p`.
pub proof fn law_power_of_quotient(
    bases: Set<Seq<char>>,
    scope: Scope,
    x: ast::Expression,
    p: ast::Expression,
    q: ast::Expression,
)
    requires
        laws::scope_valid(bases, scope),
        ast::expression_valid(x),
        ast::expression_valid(p),
        ast::expression_valid(q),
        rules::check(
            scope,
            binary(
                ast::BinaryOperator::Power,
                binary(ast::BinaryOperator::Power, x, binary(ast::BinaryOperator::Div, p, q)),
                q,
            ),
        ) is Ok,
        rules::check(scope, binary(ast::BinaryOperator::Power, x, p)) is Ok,
    ensures
        dimension_of(
            scope,
            binary(
                ast::BinaryOperator::Power,
                binary(ast::BinaryOperator::Power, x, binary(ast::BinaryOperator::Div, p, q)),
                q,
            ),
        ) == dimension_of(scope, binary(ast::BinaryOperator::Power, x, p)),
{
    let quotient = binary(ast::BinaryOperator::Div, p, q);
    let inner = binary(ast::BinaryOperator::Power, x, quotient);
    assert(ast::expression_valid(quotient)) by {
        reveal_with_fuel(ast::expression_valid, 2);
    }
    assert(ast::expression_valid(inner)) by {
        reveal_with_fuel(ast::expression_valid, 2);
    }
    let b = lemma_accepted_power(bases, scope, inner, q);
    let a = lemma_accepted_power(bases, scope, x, p);
    let c = lemma_accepted_power(bases, scope, x, quotient);
    let d = dimension_of(scope, x);
    if d != dim::unity() {
        let v = rules::check(scope, q)->Ok_0;
        let e = rules::const_value(v)->Ok_0;
        assert(rules::const_value(v) is Ok && e.numer != 0 && c == a.over(e)) by {
            reveal_with_fuel(rules::check, 2);
            reveal_with_fuel(rules::const_value, 2);
        }
        laws::law_check_valid(bases, scope, q, v);
        laws::law_const_value_reduced(bases, v, e);
        ratio::law_operations_are_undone(a, e);
        dim::law_power_product(d, c, e);
        if dimension_of(scope, inner) == dim::unity() {
            lemma_power_of_unity(e);
        }
    }
}

/// A power and the power to the negative exponent cancel: where it is accepted, `x^p * x^(-p)` is a
/// plain number.
pub proof fn law_power_of_negation(
    bases: Set<Seq<char>>,
    scope: Scope,
    x: ast::Expression,
    p: ast::Expression,
)
    requires
        laws::scope_valid(bases, scope),
        ast::expression_valid(x),
        ast::expression_valid(p),
        rules::check(
            scope,
            binary(
                ast::BinaryOperator::Mul,
                binary(ast::BinaryOperator::Power, x, p),
                binary(ast::BinaryOperator::Power, x, ast::Expression::Negate(Box::new(p))),
            ),
        ) is Ok,
    ensures
        dimension_of(
            scope,
            binary(
                ast::BinaryOperator::Mul,
                binary(ast::BinaryOperator::Power, x, p),
                binary(ast::BinaryOperator::Power, x, ast::Expression::Negate(Box::new(p))),
            ),
        ) == Map::<Seq<char>, Ratio>::empty(),
{
    let negation = ast::Expression::Negate(Box::new(p));
    let l = binary(ast::BinaryOperator::Power, x, p);
    let r = binary(ast::BinaryOperator::Power, x, negation);
    assert(rules::check(scope, l) is Ok && rules::check(scope, r) is Ok && dimension_of(
        scope,
        binary(ast::BinaryOperator::Mul, l, r),
    ) == dim::product(dimension_of(scope, l), dimension_of(scope, r))) by {
        reveal_with_fuel(rules::check, 2);
    }
    assert(ast::expression_valid(negation)) by {
        reveal_with_fuel(ast::expression_valid, 2);
    }
    let a = lemma_accepted_power(bases, scope, x, p);
    let b = lemma_accepted_power(bases, scope, x, negation);
    let d = dimension_of(scope, x);
    if d == dim::unity() {
        dim::law_unity_is_neutral(d);
    } else {
        assert(b == a.negate()) by {
            reveal_with_fuel(rules::check, 2);
            reveal_with_fuel(rules::const_value, 2);
        }
        dim::law_power_sum(d, a, b);
        ratio::lemma_plus_negate(a);
        dim::law_power_one_zero(d);
    }
}

/// The dimension `1` is that of plain numbers.
pub proof fn law_meaning_of_unity(dims: RegistryView)
    ensures
        rules::represent(dims, ast::DimensionExpression::Unity) == Ok::<
            Dim,
            Fault<RegistryErrorView>,
        >(Map::empty()),
{
}

/// The name of a base dimension stands for its first power, that of a derived dimension for what
/// the table says, and no other name stands for anything.
pub proof fn law_meaning_of_name(dims: RegistryView, name: String)
    ensures
        ({
            let r = rules::represent(dims, ast::DimensionExpression::Dimension(name));
            if dims.bases.contains(name@) {
                &&& r matches Ok(d)
                &&& d == Map::<Seq<char>, Ratio>::empty().insert(
                    name@,
                    Ratio { numer: 1, denom: 1 },
                )
            } else if dims.derived.contains_key(name@) {
                r == Ok::<Dim, Fault<RegistryErrorView>>(dims.derived[name@])
            } else {
                r == Err::<Dim, Fault<RegistryErrorView>>(
                    Fault::Rejected(RegistryErrorView::UnknownEntry(name@)),
                )
            }
        }),
{
}

/// A product or a quotient of dimensions stands for nothing if one of them does not, and the left
/// one is the first to matter. Neither does a power.
pub proof fn law_meaning_needs_parts(
    dims: RegistryView,
    x: ast::DimensionExpression,
    y: ast::DimensionExpression,
    n: arithmetic::Exponent,
    f: Fault<RegistryErrorView>,
)
    ensures
        ({
            let refused = Err::<Dim, Fault<RegistryErrorView>>(f);
            let product = ast::DimensionExpression::Multiply(Box::new(x), Box::new(y));
            let quotient = ast::DimensionExpression::Divide(Box::new(x), Box::new(y));
            let power = ast::DimensionExpression::Power(Box::new(x), n);
            &&& rules::represent(dims, x) == refused ==> {
                &&& rules::represent(dims, product) == refused
                &&& rules::represent(dims, quotient) == refused
                &&& rules::represent(dims, power) == refused
            }
            &&& rules::represent(dims, x) is Ok && rules::represent(dims, y) == refused ==> {
                &&& rules::represent(dims, product) == refused
                &&& rules::represent(dims, quotient) == refused
            }
        }),
{
    reveal_with_fuel(rules::represent, 2);
}

/// Products, quotients and powers of dimensions stand for what the exponents say: sums, differences
/// and multiples, where these can be computed.
pub proof fn law_meaning_of_operations(
    dims: RegistryView,
    x: ast::DimensionExpression,
    y: ast::DimensionExpression,
    n: arithmetic::Exponent,
    a: Dim,
    b: Dim,
)
    requires
        laws::registry_valid(dims),
        ast::dimension_valid(x),
        ast::dimension_valid(y),
        ratio::lowest_terms(n@),
        rules::represent(dims, x) == Ok::<Dim, Fault<RegistryErrorView>>(a),
        rules::represent(dims, y) == Ok::<Dim, Fault<RegistryErrorView>>(b),
    ensures
        ({
            let undefined = Err::<Dim, Fault<RegistryErrorView>>(Fault::Undefined);
            let product = rules::represent(
                dims,
                ast::DimensionExpression::Multiply(Box::new(x), Box::new(y)),
            );
            let quotient = rules::represent(
                dims,
                ast::DimensionExpression::Divide(Box::new(x), Box::new(y)),
            );
            let power = rules::represent(dims, ast::DimensionExpression::Power(Box::new(x), n));
            &&& if product_in_128_bits(a, b) {
                product matches Ok(d) && adds_exponents(d, a, b)
            } else {
                product == undefined
            }
            &&& if division_in_128_bits(a, b) {
                quotient matches Ok(d) && subtracts_exponents(d, a, b)
            } else {
                quotient == undefined
            }
            &&& if power_in_128_bits(a, n@) {
                power matches Ok(d) && multiplies_exponents(d, a, n@)
            } else {
                power == undefined
            }
        }),
{
    reveal_with_fuel(rules::represent, 2);
    laws::law_represent_valid(dims, x, a);
    laws::law_represent_valid(dims, y, b);
    law_multiplying_adds_exponents(a, b);
    law_dividing_subtracts_exponents(a, b);
    law_powers_multiply_exponents(a, n@);
}

/// Annotations and values agree: where two expressions have the dimensions that two dimension
/// expressions stand for, their product and their quotient have those that the product and the
/// quotient stand for.
pub proof fn law_annotations_and_values_agree(
    dims: RegistryView,
    scope: Scope,
    x: ast::DimensionExpression,
    y: ast::DimensionExpression,
    u: ast::Expression,
    v: ast::Expression,
)
    requires
        rules::check(scope, u) is Ok,
        rules::check(scope, v) is Ok,
        rules::represent(dims, x) == Ok::<Dim, Fault<RegistryErrorView>>(dimension_of(scope, u)),
        rules::represent(dims, y) == Ok::<Dim, Fault<RegistryErrorView>>(dimension_of(scope, v)),
    ensures
        ({
            let product = rules::represent(
                dims,
                ast::DimensionExpression::Multiply(Box::new(x), Box::new(y)),
            );
            let quotient = rules::represent(
                dims,
                ast::DimensionExpression::Divide(Box::new(x), Box::new(y)),
            );
            &&& match rules::check(scope, binary(ast::BinaryOperator::Mul, u, v)) {
                Ok(t) => product == Ok::<Dim, Fault<RegistryErrorView>>(t.get_type()),
                Err(_) => product is Err,
            }
            &&& match rules::check(scope, binary(ast::BinaryOperator::Div, u, v)) {
                Ok(t) => quotient == Ok::<Dim, Fault<RegistryErrorView>>(t.get_type()),
                Err(_) => quotient is Err,
            }
        }),
{
    reveal_with_fuel(rules::check, 2);
    reveal_with_fuel(rules::represent, 2);
}

/// To begin with nothing has been declared.
pub proof fn law_nothing_at_first()
    ensures
        CheckerView::empty().scope.identifiers == Map::<Seq<char>, Dim>::empty(),
        CheckerView::empty().scope.functions == Map::<Seq<char>, SignatureView>::empty(),
        CheckerView::empty().dims.bases == Set::<Seq<char>>::empty(),
        CheckerView::empty().dims.derived == Map::<Seq<char>, Dim>::empty(),
{
}

/// A name in the table of dimensions is known if it is a base dimension or a derived one. Declaring
/// one enters its name, and leaves all others alone.
pub proof fn law_table_of_dimensions(dims: RegistryView, name: Seq<char>, d: Dim)
    ensures
        dims.declares(name) <==> dims.bases.contains(name) || dims.derived.contains_key(name),
        dims.bases.contains(name) ==> dims.lookup(name) == Ok::<Dim, RegistryErrorView>(
            Map::empty().insert(name, Ratio { numer: 1, denom: 1 }),
        ),
        !dims.bases.contains(name) && dims.derived.contains_key(name) ==> dims.lookup(name) == Ok::<
            Dim,
            RegistryErrorView,
        >(dims.derived[name]),
        !dims.bases.contains(name) && !dims.derived.contains_key(name) ==> dims.lookup(name)
            == Err::<Dim, RegistryErrorView>(RegistryErrorView::UnknownEntry(name)),
        dims.with_base(name).bases == dims.bases.insert(name),
        dims.with_base(name).derived == dims.derived,
        dims.with_derived(name, d).bases == dims.bases,
        dims.with_derived(name, d).derived == dims.derived.insert(name, d),
{
}

/// The reason for which a program is refused where a dimension expression stands for nothing.
pub open spec fn refused_by_table(f: Fault<RegistryErrorView>) -> Fault<ErrorView> {
    match f {
        Fault::Rejected(e) => Fault::Rejected(ErrorView::RegistryError(e)),
        Fault::Undefined => Fault::Undefined,
    }
}

/// What has been declared, with a further variable or unit.
pub open spec fn and_identifier(c: CheckerView, name: Seq<char>, d: Dim) -> CheckerView {
    CheckerView {
        scope: Scope {
            identifiers: c.scope.identifiers.insert(name, d),
            functions: c.scope.functions,
        },
        dims: c.dims,
    }
}

/// An expression declares nothing, and is accepted if and only if it is well typed.
pub proof fn law_expression_statement(c: CheckerView, e: ast::Expression)
    ensures
        ({
            let (after, r) = rules::check_statement(c, ast::Statement::Expression(e));
            &&& after == c
            &&& match rules::check(c.scope, e) {
                Ok(t) => r == Ok::<StatementView, Fault<ErrorView>>(StatementView::Expression(t)),
                Err(f) => r == Err::<StatementView, Fault<ErrorView>>(f),
            }
        }),
{
}

/// A base unit is declared if and only if its dimension expression stands for a dimension, and then
/// has exactly that dimension.
pub proof fn law_base_unit_has_its_dimension(
    c: CheckerView,
    name: String,
    e: ast::DimensionExpression,
)
    ensures
        ({
            let (after, r) = rules::check_statement(c, ast::Statement::DeclareBaseUnit(name, e));
            match rules::represent(c.dims, e) {
                Ok(d) => {
                    &&& r == Ok::<StatementView, Fault<ErrorView>>(
                        StatementView::DeclareBaseUnit(name@, d),
                    )
                    &&& after == and_identifier(c, name@, d)
                },
                Err(f) => {
                    &&& r == Err::<StatementView, Fault<ErrorView>>(refused_by_table(f))
                    &&& after == c
                },
            }
        }),
{
}

/// A variable or a derived unit is declared if and only if its value is accepted and has the
/// dimension of its annotation, if there is one. It then has the dimension of its value. The value
/// is checked first.
pub proof fn law_variable_has_dimension_of_value(
    c: CheckerView,
    name: String,
    e: ast::Expression,
    annotation: Option<ast::DimensionExpression>,
)
    ensures
        ({
            let variable = rules::check_statement(
                c,
                ast::Statement::DeclareVariable(name, e, annotation),
            );
            let unit = rules::check_statement(
                c,
                ast::Statement::DeclareDerivedUnit(name, e, annotation),
            );
            match rules::check(c.scope, e) {
                Err(f) => {
                    &&& variable == (c, Err::<StatementView, Fault<ErrorView>>(f))
                    &&& unit == (c, Err::<StatementView, Fault<ErrorView>>(f))
                },
                Ok(t) => {
                    let d = t.get_type();
                    let specified = match annotation {
                        None => Ok::<Dim, Fault<RegistryErrorView>>(d),
                        Some(a) => rules::represent(c.dims, a),
                    };
                    match specified {
                        Err(f) => {
                            let r = Err::<StatementView, Fault<ErrorView>>(refused_by_table(f));
                            variable == (c, r) && unit == (c, r)
                        },
                        Ok(s) => if s == d {
                            let after = and_identifier(c, name@, d);
                            &&& variable == (
                                after,
                                Ok::<StatementView, Fault<ErrorView>>(
                                    StatementView::DeclareVariable(name@, t, d),
                                ),
                            )
                            &&& unit == (
                                after,
                                Ok::<StatementView, Fault<ErrorView>>(
                                    StatementView::DeclareDerivedUnit(name@, t, d),
                                ),
                            )
                        } else {
                            &&& variable == (
                                c,
                                Err::<StatementView, Fault<ErrorView>>(
                                    Fault::Rejected(
                                        ErrorView::IncompatibleDimensions(
                                            "variable declaration"@,
                                            "specified dimension"@,
                                            s,
                                            "   actual dimension"@,
                                            d,
                                        ),
                                    ),
                                ),
                            )
                            &&& unit == (
                                c,
                                Err::<StatementView, Fault<ErrorView>>(
                                    Fault::Rejected(
                                        ErrorView::IncompatibleDimensions(
                                            "derived unit declaration"@,
                                            "specified dimension"@,
                                            s,
                                            "   actual dimension"@,
                                            d,
                                        ),
                                    ),
                                ),
                            )
                        },
                    }
                },
            }
        }),
{
}

/// Whether checked parameters are the written ones, one by one, each with the dimension that its
/// whole annotation stands for.
pub open spec fn parameters_resolve(
    dims: RegistryView,
    params: Seq<(String, Option<ast::DimensionExpression>)>,
    ps: Seq<(Seq<char>, Dim)>,
) -> bool {
    &&& ps.len() == params.len()
    &&& forall|i: int|
        0 <= i < params.len() ==> {
            &&& ps[i].0 == (#[trigger] params[i]).0@
            &&& params[i].1 matches Some(e)
            &&& rules::represent(dims, e) == Ok::<Dim, Fault<RegistryErrorView>>(ps[i].1)
        }
}

proof fn lemma_parameters(
    dims: RegistryView,
    params: Seq<(String, Option<ast::DimensionExpression>)>,
    ps: Seq<(Seq<char>, Dim)>,
)
    ensures
        rules::parameters(dims, params) == Some(ps) <==> parameters_resolve(dims, params, ps),
    decreases params.len(),
{
    if params.len() == 0 {
        assert(ps.len() == 0 ==> ps =~= Seq::empty());
    } else {
        let rest = params.drop_last();
        let last = params.len() - 1;
        if rules::parameters(dims, params) == Some(ps) {
            let before = rules::parameters(dims, rest)->Some_0;
            lemma_parameters(dims, rest, before);
            assert forall|i: int| 0 <= i < params.len() implies {
                &&& ps[i].0 == (#[trigger] params[i]).0@
                &&& params[i].1 matches Some(e)
                &&& rules::represent(dims, e) == Ok::<Dim, Fault<RegistryErrorView>>(ps[i].1)
            } by {
                if i < last {
                    assert(rest[i] == params[i]);
                    assert(ps[i] == before[i]);
                }
            }
        }
        if parameters_resolve(dims, params, ps) {
            let before = ps.drop_last();
            assert forall|i: int| 0 <= i < rest.len() implies {
                &&& before[i].0 == (#[trigger] rest[i]).0@
                &&& rest[i].1 matches Some(e)
                &&& rules::represent(dims, e) == Ok::<Dim, Fault<RegistryErrorView>>(before[i].1)
            } by {
                assert(rest[i] == params[i]);
            }
            lemma_parameters(dims, rest, before);
            assert(params[last].1 is Some);
            assert(before.push((params.last().0@, ps.last().1)) =~= ps);
        }
    }
}

/// Whether a scope is that of the body of a function: names that are no parameters, and functions,
/// mean what they mean outside; a parameter has its dimension, and of two with one name the later
/// counts.
pub open spec fn scope_of_body(outer: Scope, ps: Seq<(Seq<char>, Dim)>, inner: Scope) -> bool {
    &&& inner.functions == outer.functions
    &&& forall|n: Seq<char>| #[trigger]
        inner.identifiers.contains_key(n) <==> outer.identifiers.contains_key(n) || exists|i: int|
            0 <= i < ps.len() && (#[trigger] ps[i]).0 == n
    &&& forall|n: Seq<char>|
        (forall|i: int| 0 <= i < ps.len() ==> (#[trigger] ps[i]).0 != n)
            && outer.identifiers.contains_key(n) ==> #[trigger] inner.identifiers[n]
            == outer.identifiers[n]
    &&& forall|k: int|
        0 <= k < ps.len() && (forall|i: int| k < i < ps.len() ==> (#[trigger] ps[i]).0 != ps[k].0)
            ==> inner.identifiers[(#[trigger] ps[k]).0] == ps[k].1
}

/// The latest parameter with a name.
proof fn lemma_latest(ps: Seq<(Seq<char>, Dim)>, n: Seq<char>, j: int) -> (k: int)
    requires
        0 <= j < ps.len(),
        ps[j].0 == n,
    ensures
        j <= k < ps.len(),
        ps[k].0 == n,
        forall|i: int| k < i < ps.len() ==> (#[trigger] ps[i]).0 != n,
    decreases ps.len() - j,
{
    if exists|i: int| j < i < ps.len() && (#[trigger] ps[i]).0 == n {
        let i = choose|i: int| j < i < ps.len() && (#[trigger] ps[i]).0 == n;
        lemma_latest(ps, n, i)
    } else {
        j
    }
}

proof fn lemma_scope_of_body(outer: Scope, ps: Seq<(Seq<char>, Dim)>, inner: Scope)
    requires
        scope_of_body(outer, ps, inner),
    ensures
        outer.with_parameters(ps) == inner,
{
    let made = outer.with_parameters(ps);
    laws::law_body_sees_earlier_functions(outer, ps);
    assert forall|n: Seq<char>|
        made.identifiers.contains_key(n) == #[trigger] inner.identifiers.contains_key(n) && (
        inner.identifiers.contains_key(n) ==> made.identifiers[n] == inner.identifiers[n]) by {
        laws::law_parameters_hide_identifiers(outer, ps, n);
        if exists|i: int| 0 <= i < ps.len() && (#[trigger] ps[i]).0 == n {
            let j = choose|i: int| 0 <= i < ps.len() && (#[trigger] ps[i]).0 == n;
            let k = lemma_latest(ps, n, j);
            assert(inner.identifiers[ps[k].0] == ps[k].1);
        } else {
            assert(outer.identifiers.contains_key(n) ==> inner.identifiers[n]
                == outer.identifiers[n]);
        }
    }
    assert(made.identifiers =~= inner.identifiers);
}

/// A function cannot be declared if a parameter has no annotation, or one that stands for nothing.
pub proof fn law_function_needs_annotations(
    c: CheckerView,
    name: String,
    type_parameters: Vec<String>,
    params: Vec<(String, Option<ast::DimensionExpression>)>,
    body: ast::Expression,
    annotation: Option<ast::DimensionExpression>,
    k: int,
)
    requires
        0 <= k < params@.len(),
        params@[k].1 matches Some(e) ==> rules::represent(c.dims, e) is Err,
    ensures
        rules::check_statement(
            c,
            ast::Statement::DeclareFunction(name, type_parameters, params, body, annotation),
        ) == (c, Err::<StatementView, Fault<ErrorView>>(Fault::Undefined)),
{
    if let Some(ps) = rules::parameters(c.dims, params@) {
        lemma_parameters(c.dims, params@, ps);
        assert(params@[k].1 is Some);
    }
}

/// A function is declared if and only if its body is accepted, with the parameters in scope, and
/// has the dimension that the result is annotated with, if it is. Each parameter has the dimension
/// that its whole annotation stands for, and the result has that of the body.
pub proof fn law_function_has_its_signature(
    c: CheckerView,
    name: String,
    type_parameters: Vec<String>,
    params: Vec<(String, Option<ast::DimensionExpression>)>,
    body: ast::Expression,
    annotation: Option<ast::DimensionExpression>,
    ps: Seq<(Seq<char>, Dim)>,
    inner: Scope,
)
    requires
        parameters_resolve(c.dims, params@, ps),
        scope_of_body(c.scope, ps, inner),
    ensures
        ({
            let declared = rules::check_statement(
                c,
                ast::Statement::DeclareFunction(name, type_parameters, params, body, annotation),
            );
            match rules::check(inner, body) {
                Err(f) => declared == (c, Err::<StatementView, Fault<ErrorView>>(f)),
                Ok(t) => {
                    let d = t.get_type();
                    let specified = match annotation {
                        None => Ok::<Dim, Fault<RegistryErrorView>>(d),
                        Some(a) => rules::represent(c.dims, a),
                    };
                    match specified {
                        Err(f) => declared == (
                            c,
                            Err::<StatementView, Fault<ErrorView>>(refused_by_table(f)),
                        ),
                        Ok(s) => if s == d {
                            let (after, r) = declared;
                            let types = after.scope.functions[name@].parameters;
                            &&& r == Ok::<StatementView, Fault<ErrorView>>(
                                StatementView::DeclareFunction(name@, ps, t, d),
                            )
                            &&& after.dims == c.dims
                            &&& after.scope.identifiers == c.scope.identifiers
                            &&& after.scope.functions == c.scope.functions.insert(
                                name@,
                                SignatureView { parameters: types, return_type: d },
                            )
                            &&& types.len() == ps.len()
                            &&& forall|i: int| 0 <= i < ps.len() ==> #[trigger] types[i] == ps[i].1
                        } else {
                            declared == (
                                c,
                                Err::<StatementView, Fault<ErrorView>>(
                                    Fault::Rejected(
                                        ErrorView::IncompatibleDimensions(
                                            "function return type"@,
                                            "specified return type"@,
                                            s,
                                            "   actual return type"@,
                                            d,
                                        ),
                                    ),
                                ),
                            )
                        },
                    }
                },
            }
        }),
{
    lemma_parameters(c.dims, params@, ps);
    lemma_scope_of_body(c.scope, ps, inner);
}

/// In an accepted function declaration there are as many checked parameters as written ones, each
/// with the name and the dimension that were written.
pub proof fn law_parameters_are_as_written(
    c: CheckerView,
    name: String,
    type_parameters: Vec<String>,
    params: Vec<(String, Option<ast::DimensionExpression>)>,
    body: ast::Expression,
    annotation: Option<ast::DimensionExpression>,
)
    requires
        rules::check_statement(
            c,
            ast::Statement::DeclareFunction(name, type_parameters, params, body, annotation),
        ).1 is Ok,
    ensures
        ({
            let (after, r) = rules::check_statement(
                c,
                ast::Statement::DeclareFunction(name, type_parameters, params, body, annotation),
            );
            let ps = r->Ok_0->DeclareFunction_1;
            let types = after.scope.functions[name@].parameters;
            &&& parameters_resolve(c.dims, params@, ps)
            &&& types.len() == params@.len()
            &&& forall|i: int| 0 <= i < params@.len() ==> #[trigger] types[i] == ps[i].1
        }),
{
    lemma_parameters(c.dims, params@, rules::parameters(c.dims, params@)->Some_0);
}

/// A base dimension is declared if and only if its name is free.
pub proof fn law_base_dimension_is_entered(
    c: CheckerView,
    name: String,
    es: Vec<ast::DimensionExpression>,
)
    requires
        es@.len() == 0,
    ensures
        rules::check_statement(c, ast::Statement::DeclareDimension(name, es)) == if c.dims.bases.contains(
            name@,
        ) || c.dims.derived.contains_key(name@) {
            (
                c,
                Err::<StatementView, Fault<ErrorView>>(
                    Fault::Rejected(
                        ErrorView::RegistryError(RegistryErrorView::EntryExists(name@)),
                    ),
                ),
            )
        } else {
            (
                CheckerView {
                    scope: c.scope,
                    dims: RegistryView {
                        bases: c.dims.bases.insert(name@),
                        derived: c.dims.derived,
                    },
                },
                Ok::<StatementView, Fault<ErrorView>>(StatementView::DeclareDimension(name@)),
            )
        },
{
}

proof fn lemma_agreeing_alternatives(
    dims: RegistryView,
    name: Seq<char>,
    d: Dim,
    es: Seq<ast::DimensionExpression>,
    j: nat,
    k: nat,
)
    requires
        j <= k <= es.len(),
        forall|i: int|
            j <= i < k ==> rules::represent(dims, #[trigger] es[i]) == Ok::<
                Dim,
                Fault<RegistryErrorView>,
            >(d),
    ensures
        rules::check_alternatives(dims, name, d, es, j) == rules::check_alternatives(
            dims,
            name,
            d,
            es,
            k,
        ),
    decreases k - j,
{
    if j < k {
        assert(rules::represent(dims, es[j as int]) is Ok);
        lemma_agreeing_alternatives(dims, name, d, es, j + 1, k);
    }
}

/// A dimension that is declared by expressions stands for what the first one does, if there is such
/// a dimension and its name is free. The declaration is accepted if and only if all further
/// expressions stand for the same, and else refused for the first that does not; the dimension
/// itself is known from then on.
pub proof fn law_derived_dimension_is_entered(
    c: CheckerView,
    name: String,
    es: Vec<ast::DimensionExpression>,
    k: nat,
)
    requires
        1 <= k <= es@.len(),
        ({
            let d = rules::represent(c.dims, es@[0])->Ok_0;
            let dims = RegistryView {
                bases: c.dims.bases,
                derived: c.dims.derived.insert(name@, d),
            };
            let meant = Ok::<Dim, Fault<RegistryErrorView>>(d);
            &&& forall|i: int| 1 <= i < k ==> rules::represent(dims, #[trigger] es@[i]) == meant
            &&& k < es@.len() ==> rules::represent(dims, es@[k as int]) != meant
        }),
    ensures
        ({
            let declared = rules::check_statement(c, ast::Statement::DeclareDimension(name, es));
            match rules::represent(c.dims, es@[0]) {
                Err(f) => declared == (
                    c,
                    Err::<StatementView, Fault<ErrorView>>(refused_by_table(f)),
                ),
                Ok(d) => if c.dims.bases.contains(name@) || c.dims.derived.contains_key(name@) {
                    declared == (
                        c,
                        Err::<StatementView, Fault<ErrorView>>(
                            Fault::Rejected(
                                ErrorView::RegistryError(RegistryErrorView::EntryExists(name@)),
                            ),
                        ),
                    )
                } else {
                    let dims = RegistryView {
                        bases: c.dims.bases,
                        derived: c.dims.derived.insert(name@, d),
                    };
                    let after = CheckerView { scope: c.scope, dims };
                    if k == es@.len() {
                        declared == (
                            after,
                            Ok::<StatementView, Fault<ErrorView>>(
                                StatementView::DeclareDimension(name@),
                            ),
                        )
                    } else {
                        match rules::represent(dims, es@[k as int]) {
                            Err(f) => declared == (
                                after,
                                Err::<StatementView, Fault<ErrorView>>(refused_by_table(f)),
                            ),
                            Ok(_) => declared == (
                                after,
                                Err::<StatementView, Fault<ErrorView>>(
                                    Fault::Rejected(
                                        ErrorView::IncompatibleAlternativeDimensionExpression(
                                            name@,
                                        ),
                                    ),
                                ),
                            ),
                        }
                    }
                },
            }
        }),
{
    if let Ok(d) = rules::represent(c.dims, es@[0]) {
        let dims = RegistryView { bases: c.dims.bases, derived: c.dims.derived.insert(name@, d) };
        lemma_agreeing_alternatives(dims, name@, d, es@, 1, k);
    }
}

} // verus!
