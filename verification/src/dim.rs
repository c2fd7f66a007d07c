//! The mathematics of physical dimensions.

use vstd::prelude::*;
use crate::ratio;
use crate::ratio::Ratio;

verus! {

/// A physical dimension, a product of powers of base dimensions: it maps the name of each base
/// dimension that occurs in it to its exponent, which is not zero.
pub type Dim = Map<Seq<char>, Ratio>;

/// Whether a map stands for a dimension: finitely many base dimensions, each with an exponent in
/// lowest terms that is not zero.
pub open spec fn valid(d: Dim) -> bool {
    &&& d.dom().finite()
    &&& forall|n: Seq<char>| #[trigger]
        d.contains_key(n) ==> d[n].reduced() && d[n].numer != 0
}

/// The exponent of a base dimension, zero where it does not occur.
pub open spec fn exponent(d: Dim, name: Seq<char>) -> Ratio {
    if d.contains_key(name) {
        d[name]
    } else {
        Ratio::zero()
    }
}

/// The dimension of plain numbers.
pub open spec fn unity() -> Dim {
    Map::empty()
}

/// A power of one base dimension.
pub open spec fn factor(name: Seq<char>, e: Ratio) -> Dim {
    if e.numer == 0 {
        unity()
    } else {
        unity().insert(name, e)
    }
}

/// Multiplying dimensions adds their exponents.
pub open spec fn product(a: Dim, b: Dim) -> Dim {
    Map::new(
        |n: Seq<char>| exponent(a, n).plus(exponent(b, n)).numer != 0,
        |n: Seq<char>| exponent(a, n).plus(exponent(b, n)),
    )
}

/// Inverting a dimension negates its exponents.
pub open spec fn inverse(d: Dim) -> Dim {
    Map::new(|n: Seq<char>| d.contains_key(n), |n: Seq<char>| d[n].negate())
}

/// Dividing by a dimension multiplies with its inverse.
pub open spec fn quotient(a: Dim, b: Dim) -> Dim {
    product(a, inverse(b))
}

/// Raising a dimension to a power multiplies its exponents.
pub open spec fn power(d: Dim, e: Ratio) -> Dim {
    Map::new(
        |n: Seq<char>| exponent(d, n).times(e).numer != 0,
        |n: Seq<char>| exponent(d, n).times(e),
    )
}

/// Dimensions with the same exponents are the same.
pub proof fn lemma_same_exponents(a: Dim, b: Dim)
    requires
        valid(a),
        valid(b),
        forall|n: Seq<char>| #[trigger] exponent(a, n) == exponent(b, n),
    ensures
        a == b,
{
    assert forall|n: Seq<char>| #[trigger] a.contains_key(n) == b.contains_key(n) by {
        assert(exponent(a, n) == exponent(b, n));
    }
    assert forall|n: Seq<char>| a.contains_key(n) implies #[trigger] a[n] == b[n] by {
        assert(exponent(a, n) == exponent(b, n));
    }
    assert(a =~= b);
}

/// The exponents of a dimension are in lowest terms.
proof fn lemma_exponent(d: Dim, n: Seq<char>)
    requires
        valid(d),
    ensures
        exponent(d, n).reduced(),
{
    ratio::lemma_from_integer(0);
}

/// A power of a base dimension is a dimension.
pub proof fn lemma_factor_valid(name: Seq<char>, e: Ratio)
    requires
        e.reduced(),
    ensures
        valid(factor(name, e)),
{
}

/// The product of two dimensions is a dimension.
pub proof fn lemma_product(a: Dim, b: Dim)
    requires
        valid(a),
        valid(b),
    ensures
        valid(product(a, b)),
        forall|n: Seq<char>| #[trigger]
            exponent(product(a, b), n) == exponent(a, n).plus(exponent(b, n)),
        forall|n: Seq<char>| #[trigger]
            product(a, b).contains_key(n) ==> a.contains_key(n) || b.contains_key(n),
{
    let p = product(a, b);
    ratio::lemma_from_integer(0);
    ratio::lemma_plus_zero(Ratio::zero());
    assert forall|n: Seq<char>| #[trigger] p.contains_key(n) implies p[n].reduced() && p[n].numer
        != 0 && (a.contains_key(n) || b.contains_key(n)) by {
        lemma_exponent(a, n);
        lemma_exponent(b, n);
        ratio::lemma_closed(exponent(a, n), exponent(b, n));
    }
    assert(p.dom().subset_of(a.dom().union(b.dom())));
    vstd::set_lib::lemma_set_subset_finite(a.dom().union(b.dom()), p.dom());
    assert forall|n: Seq<char>| #[trigger] exponent(p, n) == exponent(a, n).plus(
        exponent(b, n),
    ) by {
        lemma_exponent(a, n);
        lemma_exponent(b, n);
        ratio::lemma_closed(exponent(a, n), exponent(b, n));
        if !p.contains_key(n) {
            ratio::lemma_zero(exponent(a, n).plus(exponent(b, n)));
        }
    }
}

/// The inverse of a dimension is a dimension.
pub proof fn lemma_inverse(d: Dim)
    requires
        valid(d),
    ensures
        valid(inverse(d)),
        forall|n: Seq<char>| #[trigger] exponent(inverse(d), n) == exponent(d, n).negate(),
        inverse(d).dom() == d.dom(),
{
    assert(inverse(d).dom() =~= d.dom());
    assert forall|n: Seq<char>| #[trigger] inverse(d).contains_key(n) implies inverse(
        d,
    )[n].reduced() && inverse(d)[n].numer != 0 by {
        assert(d.contains_key(n));
        ratio::lemma_negate(d[n]);
    }
}

/// A power of a dimension is a dimension.
pub proof fn lemma_power(d: Dim, e: Ratio)
    requires
        valid(d),
        e.reduced(),
    ensures
        valid(power(d, e)),
        forall|n: Seq<char>| #[trigger] exponent(power(d, e), n) == exponent(d, n).times(e),
        forall|n: Seq<char>| #[trigger] power(d, e).contains_key(n) ==> d.contains_key(n),
{
    let p = power(d, e);
    ratio::lemma_times_zero_one(e);
    assert forall|n: Seq<char>| #[trigger] p.contains_key(n) implies p[n].reduced() && p[n].numer
        != 0 && d.contains_key(n) by {
        lemma_exponent(d, n);
        ratio::lemma_closed(exponent(d, n), e);
    }
    assert(p.dom().subset_of(d.dom()));
    vstd::set_lib::lemma_set_subset_finite(d.dom(), p.dom());
    assert forall|n: Seq<char>| #[trigger] exponent(p, n) == exponent(d, n).times(e) by {
        lemma_exponent(d, n);
        ratio::lemma_closed(exponent(d, n), e);
        if !p.contains_key(n) {
            ratio::lemma_zero(exponent(d, n).times(e));
        }
    }
}

/// The order of the factors of a product does not matter.
pub proof fn law_product_commutes(a: Dim, b: Dim)
    ensures
        product(a, b) == product(b, a),
{
    assert forall|n: Seq<char>| exponent(a, n).plus(exponent(b, n)) == #[trigger] exponent(
        b,
        n,
    ).plus(exponent(a, n)) by {
        ratio::lemma_plus_commutes(exponent(a, n), exponent(b, n));
    }
    assert(product(a, b) =~= product(b, a));
}

/// Neither does it matter how the factors are grouped.
pub proof fn law_product_associates(a: Dim, b: Dim, c: Dim)
    requires
        valid(a),
        valid(b),
        valid(c),
    ensures
        product(product(a, b), c) == product(a, product(b, c)),
{
    lemma_product(a, b);
    lemma_product(b, c);
    lemma_product(product(a, b), c);
    lemma_product(a, product(b, c));
    assert forall|n: Seq<char>| #[trigger] exponent(product(product(a, b), c), n) == exponent(
        product(a, product(b, c)),
        n,
    ) by {
        lemma_exponent(a, n);
        lemma_exponent(b, n);
        lemma_exponent(c, n);
        ratio::lemma_plus_associates(exponent(a, n), exponent(b, n), exponent(c, n));
    }
    lemma_same_exponents(product(product(a, b), c), product(a, product(b, c)));
}

/// A plain number does not change the dimension of what it multiplies or divides.
pub proof fn law_unity_is_neutral(d: Dim)
    requires
        valid(d),
    ensures
        product(d, unity()) == d,
        product(unity(), d) == d,
        quotient(d, unity()) == d,
{
    lemma_product(d, unity());
    assert forall|n: Seq<char>| #[trigger] exponent(product(d, unity()), n) == exponent(d, n) by {
        lemma_exponent(d, n);
        ratio::lemma_plus_zero(exponent(d, n));
    }
    lemma_same_exponents(product(d, unity()), d);
    law_product_commutes(d, unity());
    assert(inverse(unity()) =~= unity());
}

/// What has been multiplied can be divided away, and the other way round.
pub proof fn law_quotient_undoes_product(a: Dim, b: Dim)
    requires
        valid(a),
        valid(b),
    ensures
        quotient(product(a, b), b) == a,
        product(quotient(a, b), b) == a,
        quotient(b, b) == unity(),
{
    lemma_inverse(b);
    lemma_product(b, inverse(b));
    assert forall|n: Seq<char>| #[trigger] exponent(quotient(b, b), n) == exponent(unity(), n) by {
        lemma_exponent(b, n);
        ratio::lemma_plus_negate(exponent(b, n));
    }
    lemma_same_exponents(quotient(b, b), unity());
    law_product_associates(a, b, inverse(b));
    law_product_associates(a, inverse(b), b);
    law_product_commutes(b, inverse(b));
    law_unity_is_neutral(a);
}

/// Dividing is multiplying with the power to minus one.
pub proof fn law_quotient_is_product_with_inverse(a: Dim, b: Dim)
    requires
        valid(b),
    ensures
        quotient(a, b) == product(a, power(b, Ratio::from_integer(-1))),
{
    let e = Ratio::from_integer(-1);
    ratio::lemma_from_integer(-1);
    lemma_inverse(b);
    lemma_power(b, e);
    assert forall|n: Seq<char>| #[trigger] exponent(inverse(b), n) == exponent(power(b, e), n) by {
        lemma_exponent(b, n);
        ratio::lemma_negate(exponent(b, n));
    }
    lemma_same_exponents(inverse(b), power(b, e));
}

/// The power to one is the dimension itself, and the power to zero is a plain number.
pub proof fn law_power_one_zero(d: Dim)
    requires
        valid(d),
    ensures
        power(d, Ratio::one()) == d,
        power(d, Ratio::zero()) == unity(),
{
    ratio::lemma_from_integer(1);
    ratio::lemma_from_integer(0);
    lemma_power(d, Ratio::one());
    lemma_power(d, Ratio::zero());
    assert forall|n: Seq<char>| exponent(d, n).times(Ratio::one()) == #[trigger] exponent(d, n)
        && exponent(d, n).times(Ratio::zero()) == Ratio::zero() by {
        lemma_exponent(d, n);
        ratio::lemma_times_zero_one(exponent(d, n));
    }
    lemma_same_exponents(power(d, Ratio::one()), d);
    lemma_same_exponents(power(d, Ratio::zero()), unity());
}

/// Multiplying powers of one dimension adds the exponents.
pub proof fn law_power_sum(d: Dim, p: Ratio, q: Ratio)
    requires
        valid(d),
        p.reduced(),
        q.reduced(),
    ensures
        power(d, p.plus(q)) == product(power(d, p), power(d, q)),
{
    ratio::lemma_closed(p, q);
    lemma_power(d, p.plus(q));
    lemma_power(d, p);
    lemma_power(d, q);
    lemma_product(power(d, p), power(d, q));
    assert forall|n: Seq<char>| #[trigger] exponent(power(d, p.plus(q)), n) == exponent(
        product(power(d, p), power(d, q)),
        n,
    ) by {
        let e = exponent(d, n);
        lemma_exponent(d, n);
        ratio::lemma_times_distributes(p, q, e);
        ratio::lemma_times_commutes(p.plus(q), e);
        ratio::lemma_times_commutes(p, e);
        ratio::lemma_times_commutes(q, e);
    }
    lemma_same_exponents(power(d, p.plus(q)), product(power(d, p), power(d, q)));
}

/// A power of a power has the product of the exponents.
pub proof fn law_power_product(d: Dim, p: Ratio, q: Ratio)
    requires
        valid(d),
        p.reduced(),
        q.reduced(),
    ensures
        power(power(d, p), q) == power(d, p.times(q)),
{
    ratio::lemma_closed(p, q);
    lemma_power(d, p);
    lemma_power(power(d, p), q);
    lemma_power(d, p.times(q));
    assert forall|n: Seq<char>| #[trigger] exponent(power(power(d, p), q), n) == exponent(
        power(d, p.times(q)),
        n,
    ) by {
        lemma_exponent(d, n);
        ratio::lemma_times_associates(exponent(d, n), p, q);
    }
    lemma_same_exponents(power(power(d, p), q), power(d, p.times(q)));
}

/// A power of a product is the product of the powers.
pub proof fn law_power_distributes(a: Dim, b: Dim, e: Ratio)
    requires
        valid(a),
        valid(b),
        e.reduced(),
    ensures
        power(product(a, b), e) == product(power(a, e), power(b, e)),
{
    lemma_product(a, b);
    lemma_power(product(a, b), e);
    lemma_power(a, e);
    lemma_power(b, e);
    lemma_product(power(a, e), power(b, e));
    assert forall|n: Seq<char>| #[trigger] exponent(power(product(a, b), e), n) == exponent(
        product(power(a, e), power(b, e)),
        n,
    ) by {
        lemma_exponent(a, n);
        lemma_exponent(b, n);
        ratio::lemma_times_distributes(exponent(a, n), exponent(b, n), e);
    }
    lemma_same_exponents(power(product(a, b), e), product(power(a, e), power(b, e)));
}

} // verus!
