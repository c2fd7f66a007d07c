//! Dimensions in terms of base dimensions, and the table of those that have been declared.

use vstd::prelude::*;
use vstd::std_specs::cmp::PartialEqSpec;
use crate::arithmetic;
use crate::arithmetic::{Exponent, Rational};
use crate::dim;
use crate::dim::Dim;
use crate::name_map;
use crate::name_map::NameMap;
use crate::ratio;
use crate::ratio::Ratio;

verus! {

/// A power of a base dimension.
#[derive(Clone, Debug, PartialEq, Eq)]
pub struct BaseRepresentationFactor(pub String, pub Exponent);

/// A dimension as a product of powers of base dimensions.
#[derive(Debug, Eq)]
pub struct BaseRepresentation {
    pub(crate) factors: Vec<BaseRepresentationFactor>,
}

/// Whether one of the first `k` factors is a power of the given base dimension.
pub open spec fn mentions(fs: Seq<BaseRepresentationFactor>, k: int, name: Seq<char>) -> bool {
    exists|i: int| 0 <= i < k && (#[trigger] fs[i]).0@ == name
}

/// The index of a factor that is a power of the given base dimension.
pub open spec fn position(fs: Seq<BaseRepresentationFactor>, name: Seq<char>) -> int {
    choose|i: int| 0 <= i < fs.len() && (#[trigger] fs[i]).0@ == name
}

/// The dimension that a list of factors stands for.
pub open spec fn factors_dim(fs: Seq<BaseRepresentationFactor>) -> Dim {
    Map::new(
        |n: Seq<char>| mentions(fs, fs.len() as int, n),
        |n: Seq<char>| fs[position(fs, n)].1@,
    )
}

/// Whether a list of factors is canonical: each base dimension occurs once, and none with the
/// exponent zero.
pub open spec fn canonical(fs: Seq<BaseRepresentationFactor>) -> bool {
    &&& forall|i: int, j: int|
        0 <= i < j < fs.len() ==> (#[trigger] fs[i]).0@ != (#[trigger] fs[j]).0@
    &&& forall|i: int|
        0 <= i < fs.len() ==> (#[trigger] fs[i]).1@.reduced() && fs[i].1@.numer != 0
}

impl View for BaseRepresentation {
    type V = Dim;

    open(crate) spec fn view(&self) -> Dim {
        factors_dim(self.factors@)
    }
}

/// Whether the exponents of a product can be computed within range.
pub open spec fn product_fits(a: Dim, b: Dim) -> bool {
    forall|n: Seq<char>|
        #![trigger a.contains_key(n), b.contains_key(n)]
        a.contains_key(n) && b.contains_key(n) ==> arithmetic::sum_fits(a[n], b[n])
}

/// Whether the exponents of an inverse are within range.
pub open spec fn inverse_fits(d: Dim) -> bool {
    forall|n: Seq<char>| #[trigger] d.contains_key(n) ==> arithmetic::fits(d[n].negate())
}

/// Whether the exponents of a quotient can be computed within range.
pub open spec fn quotient_fits(a: Dim, b: Dim) -> bool {
    inverse_fits(b) && product_fits(a, dim::inverse(b))
}

/// Whether the exponents of a power are within range.
pub open spec fn power_fits(d: Dim, e: Ratio) -> bool {
    forall|n: Seq<char>| #[trigger] d.contains_key(n) ==> arithmetic::fits(d[n].times(e))
}

/// In a canonical list each factor gives the exponent of its base dimension.
proof fn lemma_factor(fs: Seq<BaseRepresentationFactor>, i: int)
    requires
        canonical(fs),
        0 <= i < fs.len(),
    ensures
        factors_dim(fs).contains_key(fs[i].0@),
        factors_dim(fs)[fs[i].0@] == fs[i].1@,
{
    let n = fs[i].0@;
    let p = position(fs, n);
    assert(0 <= p < fs.len() && fs[p].0@ == n);
    if p < i {
        assert(fs[p].0@ != fs[i].0@);
    } else if i < p {
        assert(fs[i].0@ != fs[p].0@);
    }
}

/// Adding a factor for another base dimension adds its exponent.
proof fn lemma_push(fs: Seq<BaseRepresentationFactor>, f: BaseRepresentationFactor)
    requires
        canonical(fs),
        !factors_dim(fs).contains_key(f.0@),
        f.1@.reduced(),
        f.1@.numer != 0,
    ensures
        canonical(fs.push(f)),
        factors_dim(fs.push(f)) == factors_dim(fs).insert(f.0@, f.1@),
{
    let gs = fs.push(f);
    assert forall|i: int| 0 <= i < fs.len() implies (#[trigger] fs[i]).0@ != f.0@ by {
        lemma_factor(fs, i);
    }
    assert forall|i: int, j: int| 0 <= i < j < gs.len() implies (#[trigger] gs[i]).0@ != (
    #[trigger] gs[j]).0@ by {
        assert(gs[i] == fs[i]);
        if j < fs.len() {
            assert(gs[j] == fs[j]);
        }
    }
    assert forall|i: int| 0 <= i < gs.len() implies (#[trigger] gs[i]).1@.reduced()
        && gs[i].1@.numer != 0 by {
        if i < fs.len() {
            assert(gs[i] == fs[i]);
        }
    }
    assert forall|n: Seq<char>| #[trigger]
        factors_dim(gs).contains_key(n) == factors_dim(fs).insert(f.0@, f.1@).contains_key(
            n,
        ) by {
        if factors_dim(gs).contains_key(n) {
            let i = choose|i: int| 0 <= i < gs.len() && (#[trigger] gs[i]).0@ == n;
            if i < fs.len() {
                assert(fs[i].0@ == n);
            }
        }
        if factors_dim(fs).contains_key(n) {
            let i = choose|i: int| 0 <= i < fs.len() && (#[trigger] fs[i]).0@ == n;
            assert(gs[i].0@ == n);
        }
        if n == f.0@ {
            assert(gs[fs.len() as int].0@ == n);
        }
    }
    assert forall|n: Seq<char>| factors_dim(gs).contains_key(n) implies #[trigger] factors_dim(
        gs,
    )[n] == factors_dim(fs).insert(f.0@, f.1@)[n] by {
        let i = position(gs, n);
        assert(gs[i].0@ == n);
        if i < fs.len() {
            assert(gs[i] == fs[i]);
            lemma_factor(fs, i);
        }
    }
    assert(factors_dim(gs) =~= factors_dim(fs).insert(f.0@, f.1@));
}

/// A canonical list of factors stands for a dimension.
proof fn lemma_valid(fs: Seq<BaseRepresentationFactor>)
    requires
        canonical(fs),
    ensures
        dim::valid(factors_dim(fs)),
    decreases fs.len(),
{
    let d = factors_dim(fs);
    if fs.len() == 0 {
        assert(d =~= Map::empty());
    } else {
        let rest = fs.drop_last();
        assert(canonical(rest)) by {
            assert forall|i: int, j: int| 0 <= i < j < rest.len() implies (#[trigger] rest[i]).0@
                != (#[trigger] rest[j]).0@ by {
                assert(rest[i] == fs[i] && rest[j] == fs[j]);
            }
            assert forall|i: int| 0 <= i < rest.len() implies (#[trigger] rest[i]).1@.reduced()
                && rest[i].1@.numer != 0 by {
                assert(rest[i] == fs[i]);
            }
        }
        lemma_valid(rest);
        let f = fs.last();
        if factors_dim(rest).contains_key(f.0@) {
            let i = choose|i: int| 0 <= i < rest.len() && (#[trigger] rest[i]).0@ == f.0@;
            assert(fs[i].0@ != fs[fs.len() - 1].0@);
        }
        assert(fs[fs.len() - 1].1@.reduced());
        lemma_push(rest, f);
        assert(rest.push(f) == fs);
    }
}

impl PartialEq for BaseRepresentation {
    fn eq(&self, other: &Self) -> (r: bool) {
        let r = self.is_part_of(other) && other.is_part_of(self);
        proof {
            if r {
                assert(self@ =~= other@);
            }
        }
        r
    }
}

impl vstd::std_specs::cmp::PartialEqSpecImpl for BaseRepresentation {
    open spec fn obeys_eq_spec() -> bool {
        true
    }

    open spec fn eq_spec(&self, other: &Self) -> bool {
        self@ == other@
    }
}

impl Clone for BaseRepresentation {
    fn clone(&self) -> (r: Self)
        ensures
            r@ == self@,
    {
        proof {
            use_type_invariant(self);
        }
        let ghost fs = self.factors@;
        let mut factors: Vec<BaseRepresentationFactor> = Vec::new();
        let mut k: usize = 0;
        while k < self.factors.len()
            invariant
                k <= fs.len(),
                fs == self.factors@,
                factors@ == fs.take(k as int),
            decreases fs.len() - k,
        {
            let f = &self.factors[k];
            factors.push(BaseRepresentationFactor(f.0.clone(), f.1));
            k = k + 1;
            assert(factors@ =~= fs.take(k as int));
        }
        assert(factors@ =~= fs);
        BaseRepresentation { factors }
    }
}

impl BaseRepresentation {
    /// The factors are canonical.
    #[verifier::type_invariant]
    pub open(crate) spec fn wf(self) -> bool {
        canonical(self.factors@)
    }

    /// The dimension of plain numbers.
    pub fn unity() -> (r: BaseRepresentation)
        ensures
            r@ == dim::unity(),
    {
        let r = BaseRepresentation { factors: Vec::new() };
        assert(r@ =~= dim::unity());
        r
    }

    /// A power of one base dimension.
    pub fn from_factor(f: BaseRepresentationFactor) -> (r: BaseRepresentation)
        ensures
            r@ == dim::factor(f.0@, f.1@),
    {
        let e: Rational = f.1;
        proof {
            use_type_invariant(&e);
            assert(factors_dim(Seq::empty()) =~= dim::unity());
            if e@.numer != 0 {
                lemma_push(Seq::empty(), f);
            }
        }
        let mut factors: Vec<BaseRepresentationFactor> = Vec::new();
        if e.numer() != 0 {
            factors.push(f);
        }
        BaseRepresentation { factors }
    }

    /// The factors, one for each base dimension that occurs.
    pub fn factors(&self) -> (r: &Vec<BaseRepresentationFactor>)
        ensures
            canonical(r@),
            factors_dim(r@) == self@,
            dim::valid(self@),
    {
        proof {
            use_type_invariant(self);
            lemma_valid(self.factors@);
        }
        &self.factors
    }

    /// The exponent of a base dimension, if it occurs.
    fn find(&self, name: &String) -> (r: Option<Exponent>)
        ensures
            match r {
                Some(e) => self@.contains_key(name@) && e@ == self@[name@] && arithmetic::fits(e@),
                None => !self@.contains_key(name@),
            },
    {
        proof {
            use_type_invariant(self);
        }
        let mut k: usize = 0;
        while k < self.factors.len()
            invariant
                k <= self.factors@.len(),
                canonical(self.factors@),
                forall|i: int| 0 <= i < k ==> (#[trigger] self.factors@[i]).0@ != name@,
            decreases self.factors@.len() - k,
        {
            if self.factors[k].0 == *name {
                proof {
                    lemma_factor(self.factors@, k as int);
                }
                return Some(self.factors[k].1);
            }
            k = k + 1;
        }
        None
    }

    /// Whether each factor of this dimension is a factor of another.
    fn is_part_of(&self, other: &Self) -> (r: bool)
        ensures
            r == (forall|n: Seq<char>| #[trigger]
                self@.contains_key(n) ==> other@.contains_key(n) && other@[n] == self@[n]),
    {
        proof {
            use_type_invariant(self);
        }
        let ghost fs = self.factors@;
        let mut k: usize = 0;
        while k < self.factors.len()
            invariant
                k <= fs.len(),
                fs == self.factors@,
                canonical(fs),
                forall|i: int|
                    0 <= i < k ==> {
                        &&& other@.contains_key((#[trigger] fs[i]).0@)
                        &&& other@[fs[i].0@] == fs[i].1@
                    },
            decreases fs.len() - k,
        {
            let f = &self.factors[k];
            proof {
                lemma_factor(fs, k as int);
                assert(self@.contains_key(f.0@) && self@[f.0@] == f.1@);
            }
            match other.find(&f.0) {
                None => {
                    return false;
                },
                Some(e) => {
                    if e != f.1 {
                        return false;
                    }
                },
            }
            k = k + 1;
        }
        assert forall|n: Seq<char>| #[trigger] self@.contains_key(n) implies other@.contains_key(n)
            && other@[n] == self@[n] by {
            lemma_factor(fs, position(fs, n));
        }
        true
    }

    /// Adds the factors of this dimension to a list, each exponent increased by the one in
    /// `other`.
    fn merge_into(
        &self,
        other: &Self,
        factors: &mut Vec<BaseRepresentationFactor>,
    ) -> (r: bool)
        requires
            old(factors)@.len() == 0,
        ensures
            r == product_fits(self@, other@),
            r ==> {
                &&& canonical(final(factors)@)
                &&& forall|n: Seq<char>| #[trigger]
                    factors_dim(final(factors)@).contains_key(n) <==> self@.contains_key(n)
                        && dim::product(self@, other@).contains_key(n)
                &&& forall|n: Seq<char>|
                    factors_dim(final(factors)@).contains_key(n) ==> #[trigger] factors_dim(
                        final(factors)@,
                    )[n] == dim::product(self@, other@)[n]
            },
    {
        proof {
            use_type_invariant(self);
        }
        let ghost fs = self.factors@;
        let ghost p = dim::product(self@, other@);
        let mut k: usize = 0;
        while k < self.factors.len()
            invariant
                k <= fs.len(),
                fs == self.factors@,
                p == dim::product(self@, other@),
                canonical(fs),
                canonical(factors@),
                forall|n: Seq<char>| #[trigger]
                    factors_dim(factors@).contains_key(n) <==> mentions(fs, k as int, n)
                        && p.contains_key(n),
                forall|n: Seq<char>|
                    factors_dim(factors@).contains_key(n) ==> #[trigger] factors_dim(factors@)[n]
                        == p[n],
                forall|i: int|
                    0 <= i < k && other@.contains_key((#[trigger] fs[i]).0@)
                        ==> arithmetic::sum_fits(fs[i].1@, other@[fs[i].0@]),
            decreases fs.len() - k,
        {
            let f = &self.factors[k];
            let ghost n = f.0@;
            let ghost before = factors@;
            proof {
                lemma_factor(fs, k as int);
                assert(self@.contains_key(n) && self@[n] == f.1@);
                ratio::lemma_plus_zero(f.1@);
                if mentions(fs, k as int, n) {
                    let i = choose|i: int| 0 <= i < k && (#[trigger] fs[i]).0@ == n;
                    assert(fs[i].0@ != fs[k as int].0@);
                }
                assert(!factors_dim(before).contains_key(n));
            }
            let e: Exponent = match other.find(&f.0) {
                None => f.1,
                Some(e) => match f.1.checked_add(e) {
                    None => {
                        assert(self@.contains_key(n) && other@.contains_key(n));
                        return false;
                    },
                    Some(sum) => sum,
                },
            };
            assert(e@ == dim::exponent(self@, n).plus(dim::exponent(other@, n)));
            proof {
                use_type_invariant(&e);
            }
            if e.numer() != 0 {
                proof {
                    lemma_push(before, BaseRepresentationFactor(f.0, e));
                }
                factors.push(BaseRepresentationFactor(f.0.clone(), e));
            }
            k = k + 1;
            assert forall|m: Seq<char>| #[trigger]
                factors_dim(factors@).contains_key(m) <==> mentions(fs, k as int, m)
                    && p.contains_key(m) by {
                if mentions(fs, k as int, m) && m != n {
                    let i = choose|i: int| 0 <= i < k && (#[trigger] fs[i]).0@ == m;
                    assert(i < k - 1);
                    assert(mentions(fs, k - 1, m));
                }
                if mentions(fs, k - 1, m) {
                    let i = choose|i: int| 0 <= i < k - 1 && (#[trigger] fs[i]).0@ == m;
                    assert(fs[i].0@ == m && i < k);
                }
                if m == n {
                    assert(fs[k - 1].0@ == m);
                }
            }
        }
        assert forall|n: Seq<char>|
            #![trigger self@.contains_key(n), other@.contains_key(n)]
            self@.contains_key(n) && other@.contains_key(n) implies arithmetic::sum_fits(
            self@[n],
            other@[n],
        ) by {
            lemma_factor(fs, position(fs, n));
            assert(fs[position(fs, n)].0@ == n);
        }
        true
    }

    /// The product of two dimensions, or `None` if an exponent cannot be computed within range.
    pub fn checked_multiply(&self, other: &Self) -> (r: Option<BaseRepresentation>)
        ensures
            match r {
                Some(d) => d@ == dim::product(self@, other@) && product_fits(self@, other@),
                None => !product_fits(self@, other@),
            },
    {
        let mut factors: Vec<BaseRepresentationFactor> = Vec::new();
        if !self.merge_into(other, &mut factors) {
            return None;
        }
        proof {
            use_type_invariant(self);
            use_type_invariant(other);
        }
        let ghost gs = other.factors@;
        let ghost p = dim::product(self@, other@);
        let mut k: usize = 0;
        while k < other.factors.len()
            invariant
                k <= gs.len(),
                gs == other.factors@,
                p == dim::product(self@, other@),
                canonical(gs),
                canonical(factors@),
                forall|n: Seq<char>| #[trigger]
                    factors_dim(factors@).contains_key(n) <==> (self@.contains_key(n) || mentions(
                        gs,
                        k as int,
                        n,
                    )) && p.contains_key(n),
                forall|n: Seq<char>|
                    factors_dim(factors@).contains_key(n) ==> #[trigger] factors_dim(factors@)[n]
                        == p[n],
            decreases gs.len() - k,
        {
            let f = &other.factors[k];
            let ghost n = f.0@;
            let ghost before = factors@;
            proof {
                lemma_factor(gs, k as int);
                assert(other@.contains_key(n) && other@[n] == f.1@);
                ratio::lemma_plus_zero(f.1@);
                if mentions(gs, k as int, n) {
                    let i = choose|i: int| 0 <= i < k && (#[trigger] gs[i]).0@ == n;
                    assert(gs[i].0@ != gs[k as int].0@);
                }
            }
            if self.find(&f.0).is_none() {
                assert(!factors_dim(before).contains_key(n));
                assert(p.contains_key(n) && p[n] == f.1@);
                proof {
                    lemma_push(before, *f);
                }
                factors.push(BaseRepresentationFactor(f.0.clone(), f.1));
            }
            k = k + 1;
            assert forall|m: Seq<char>| #[trigger]
                factors_dim(factors@).contains_key(m) <==> (self@.contains_key(m) || mentions(
                    gs,
                    k as int,
                    m,
                )) && p.contains_key(m) by {
                if mentions(gs, k as int, m) && m != n {
                    let i = choose|i: int| 0 <= i < k && (#[trigger] gs[i]).0@ == m;
                    assert(i < k - 1);
                    assert(mentions(gs, k - 1, m));
                }
                if mentions(gs, k - 1, m) {
                    let i = choose|i: int| 0 <= i < k - 1 && (#[trigger] gs[i]).0@ == m;
                    assert(gs[i].0@ == m && i < k);
                }
                if m == n {
                    assert(gs[k - 1].0@ == m);
                }
            }
        }
        proof {
            ratio::lemma_from_integer(0);
            ratio::lemma_plus_zero(Ratio::zero());
            assert(factors_dim(factors@) =~= p);
        }
        Some(BaseRepresentation { factors })
    }

    /// The inverse of a dimension, or `None` if an exponent is out of range.
    pub fn checked_invert(&self) -> (r: Option<BaseRepresentation>)
        ensures
            match r {
                Some(d) => d@ == dim::inverse(self@) && inverse_fits(self@),
                None => !inverse_fits(self@),
            },
    {
        proof {
            use_type_invariant(self);
        }
        let ghost fs = self.factors@;
        let mut factors: Vec<BaseRepresentationFactor> = Vec::new();
        let mut k: usize = 0;
        while k < self.factors.len()
            invariant
                k <= fs.len(),
                fs == self.factors@,
                canonical(fs),
                canonical(factors@),
                factors@.len() == k,
                forall|i: int|
                    0 <= i < k ==> {
                        &&& (#[trigger] factors@[i]).0@ == fs[i].0@
                        &&& factors@[i].1@ == fs[i].1@.negate()
                        &&& arithmetic::fits(fs[i].1@.negate())
                    },
            decreases fs.len() - k,
        {
            let f = &self.factors[k];
            proof {
                lemma_factor(fs, k as int);
                assert(self@.contains_key(f.0@) && self@[f.0@] == f.1@);
            }
            match f.1.checked_neg() {
                None => {
                    return None;
                },
                Some(e) => {
                    proof {
                        use_type_invariant(&e);
                        assert forall|i: int| 0 <= i < k implies (#[trigger] factors@[i]).0@
                            != f.0@ by {
                            assert(fs[i].0@ != fs[k as int].0@);
                        }
                    }
                    factors.push(BaseRepresentationFactor(f.0.clone(), e));
                },
            }
            k = k + 1;
        }
        proof {
            let d = factors_dim(factors@);
            assert forall|n: Seq<char>| #[trigger] self@.contains_key(n) implies arithmetic::fits(
                self@[n].negate(),
            ) && d.contains_key(n) && d[n] == self@[n].negate() by {
                let i = position(fs, n);
                assert(fs[i].0@ == n);
                lemma_factor(fs, i);
                assert(factors@[i].0@ == n);
                lemma_factor(factors@, i);
            }
            assert forall|n: Seq<char>| #[trigger] d.contains_key(n) implies self@.contains_key(
                n,
            ) by {
                let i = position(factors@, n);
                assert(factors@[i].0@ == n);
                lemma_factor(fs, i);
            }
            assert(d =~= dim::inverse(self@));
        }
        Some(BaseRepresentation { factors })
    }

    /// The quotient of two dimensions, or `None` if an exponent cannot be computed within range.
    pub fn checked_divide(&self, other: &Self) -> (r: Option<BaseRepresentation>)
        ensures
            match r {
                Some(d) => d@ == dim::quotient(self@, other@) && quotient_fits(self@, other@),
                None => !quotient_fits(self@, other@),
            },
    {
        match other.checked_invert() {
            None => None,
            Some(inverse) => self.checked_multiply(&inverse),
        }
    }

    /// A power of a dimension, or `None` if an exponent is out of range.
    pub fn checked_power(&self, e: Exponent) -> (r: Option<BaseRepresentation>)
        ensures
            match r {
                Some(d) => d@ == dim::power(self@, e@) && power_fits(self@, e@),
                None => !power_fits(self@, e@),
            },
    {
        proof {
            use_type_invariant(self);
            use_type_invariant(&e);
        }
        let ghost fs = self.factors@;
        let ghost p = dim::power(self@, e@);
        let mut factors: Vec<BaseRepresentationFactor> = Vec::new();
        let mut k: usize = 0;
        while k < self.factors.len()
            invariant
                k <= fs.len(),
                fs == self.factors@,
                p == dim::power(self@, e@),
                canonical(fs),
                canonical(factors@),
                forall|n: Seq<char>| #[trigger]
                    factors_dim(factors@).contains_key(n) <==> mentions(fs, k as int, n)
                        && p.contains_key(n),
                forall|n: Seq<char>|
                    factors_dim(factors@).contains_key(n) ==> #[trigger] factors_dim(factors@)[n]
                        == p[n],
                forall|i: int|
                    0 <= i < k ==> arithmetic::fits((#[trigger] fs[i]).1@.times(e@)),
            decreases fs.len() - k,
        {
            let f = &self.factors[k];
            let ghost n = f.0@;
            let ghost before = factors@;
            proof {
                lemma_factor(fs, k as int);
                assert(self@.contains_key(n) && self@[n] == f.1@);
                if mentions(fs, k as int, n) {
                    let i = choose|i: int| 0 <= i < k && (#[trigger] fs[i]).0@ == n;
                    assert(fs[i].0@ != fs[k as int].0@);
                }
                assert(!factors_dim(before).contains_key(n));
            }
            let x: Exponent = match f.1.checked_mul(e) {
                None => {
                    return None;
                },
                Some(x) => x,
            };
            proof {
                use_type_invariant(&x);
            }
            if x.numer() != 0 {
                proof {
                    lemma_push(before, BaseRepresentationFactor(f.0, x));
                }
                factors.push(BaseRepresentationFactor(f.0.clone(), x));
            }
            k = k + 1;
            assert forall|m: Seq<char>| #[trigger]
                factors_dim(factors@).contains_key(m) <==> mentions(fs, k as int, m)
                    && p.contains_key(m) by {
                if mentions(fs, k as int, m) && m != n {
                    let i = choose|i: int| 0 <= i < k && (#[trigger] fs[i]).0@ == m;
                    assert(i < k - 1);
                    assert(mentions(fs, k - 1, m));
                }
                if mentions(fs, k - 1, m) {
                    let i = choose|i: int| 0 <= i < k - 1 && (#[trigger] fs[i]).0@ == m;
                    assert(fs[i].0@ == m && i < k);
                }
                if m == n {
                    assert(fs[k - 1].0@ == m);
                }
            }
        }
        proof {
            assert forall|n: Seq<char>| #[trigger] self@.contains_key(n) implies arithmetic::fits(
                self@[n].times(e@),
            ) by {
                lemma_factor(fs, position(fs, n));
            }
            assert forall|n: Seq<char>| #[trigger] p.contains_key(n) implies self@.contains_key(
                n,
            ) by {
                if !self@.contains_key(n) {
                    ratio::lemma_from_integer(0);
                    ratio::lemma_new_is(Ratio::zero(), 0 * e@.numer, 1 * e@.denom);
                }
            }
            assert(factors_dim(factors@) =~= p);
        }
        Some(BaseRepresentation { factors })
    }

    /// The product of two dimensions.
    pub fn multiply(self, other: BaseRepresentation) -> (r: BaseRepresentation)
        requires
            product_fits(self@, other@),
        ensures
            r@ == dim::product(self@, other@),
    {
        self.checked_multiply(&other).unwrap()
    }

    /// The quotient of two dimensions.
    pub fn divide(self, other: BaseRepresentation) -> (r: BaseRepresentation)
        requires
            quotient_fits(self@, other@),
        ensures
            r@ == dim::quotient(self@, other@),
    {
        self.checked_divide(&other).unwrap()
    }

    /// A power of a dimension.
    pub fn power(self, e: Exponent) -> (r: BaseRepresentation)
        requires
            power_fits(self@, e@),
        ensures
            r@ == dim::power(self@, e@),
    {
        self.checked_power(e).unwrap()
    }
}

/// Why the table of dimensions refuses a request.
#[derive(Clone, Debug, PartialEq, Eq)]
pub enum RegistryError {
    /// The name is taken.
    EntryExists(String),
    /// The name has not been declared.
    UnknownEntry(String),
}

/// The mathematical content of a `RegistryError`.
pub enum RegistryErrorView {
    EntryExists(Seq<char>),
    UnknownEntry(Seq<char>),
}

impl View for RegistryError {
    type V = RegistryErrorView;

    open spec fn view(&self) -> RegistryErrorView {
        match self {
            RegistryError::EntryExists(name) => RegistryErrorView::EntryExists(name@),
            RegistryError::UnknownEntry(name) => RegistryErrorView::UnknownEntry(name@),
        }
    }
}

/// The table of declared dimensions.
#[derive(Debug)]
pub struct Registry {
    pub(crate) base_entries: Vec<String>,
    pub(crate) derived_entries: NameMap<BaseRepresentation>,
}

/// The mathematical content of a `Registry`: the base dimensions, and what each derived
/// dimension stands for.
pub struct RegistryView {
    pub bases: Set<Seq<char>>,
    pub derived: Map<Seq<char>, Dim>,
}

impl RegistryView {
    /// Whether a name has been declared.
    pub open spec fn declares(self, name: Seq<char>) -> bool {
        self.bases.contains(name) || self.derived.contains_key(name)
    }

    /// What a name stands for: a base dimension for itself, a derived one for its
    /// representation.
    pub open spec fn lookup(self, name: Seq<char>) -> Result<Dim, RegistryErrorView> {
        if self.bases.contains(name) {
            Ok(dim::factor(name, Ratio::one()))
        } else if self.derived.contains_key(name) {
            Ok(self.derived[name])
        } else {
            Err(RegistryErrorView::UnknownEntry(name))
        }
    }

    /// The table with a further base dimension.
    pub open spec fn with_base(self, name: Seq<char>) -> RegistryView {
        RegistryView { bases: self.bases.insert(name), derived: self.derived }
    }

    /// The table with a further derived dimension.
    pub open spec fn with_derived(self, name: Seq<char>, d: Dim) -> RegistryView {
        RegistryView { bases: self.bases, derived: self.derived.insert(name, d) }
    }
}

/// The names in a list.
pub open spec fn name_set(names: Seq<String>) -> Set<Seq<char>> {
    Set::new(|n: Seq<char>| exists|i: int| 0 <= i < names.len() && (#[trigger] names[i])@ == n)
}

impl View for Registry {
    type V = RegistryView;

    open(crate) spec fn view(&self) -> RegistryView {
        RegistryView { bases: name_set(self.base_entries@), derived: self.derived_entries@ }
    }
}

impl Clone for Registry {
    fn clone(&self) -> (r: Self)
        ensures
            r@ == self@,
    {
        let r = Registry {
            base_entries: self.base_entries.clone(),
            derived_entries: self.derived_entries.clone(),
        };
        proof {
            assert(r.base_entries@ =~= self.base_entries@);
            name_map::lemma_same_entries(r.derived_entries.entries@, self.derived_entries.entries@);
        }
        r
    }
}

impl Registry {
    /// A table without dimensions.
    pub fn new() -> (r: Registry)
        ensures
            r@.bases == Set::<Seq<char>>::empty(),
            r@.derived == Map::<Seq<char>, Dim>::empty(),
    {
        let r = Registry { base_entries: Vec::new(), derived_entries: NameMap::new() };
        assert(r@.bases =~= Set::<Seq<char>>::empty());
        r
    }

    /// Whether a name is a base dimension.
    pub fn is_base_entry(&self, name: &String) -> (r: bool)
        ensures
            r == self@.bases.contains(name@),
    {
        let mut k: usize = 0;
        while k < self.base_entries.len()
            invariant
                k <= self.base_entries@.len(),
                forall|i: int| 0 <= i < k ==> (#[trigger] self.base_entries@[i])@ != name@,
            decreases self.base_entries@.len() - k,
        {
            if self.base_entries[k] == *name {
                assert(self.base_entries@[k as int]@ == name@);
                return true;
            }
            k = k + 1;
        }
        false
    }

    /// Whether a name has been declared.
    fn contains(&self, name: &String) -> (r: bool)
        ensures
            r == self@.declares(name@),
    {
        self.is_base_entry(name) || self.derived_entries.get(name).is_some()
    }

    /// Declares a base dimension.
    pub fn add_base_entry(&mut self, name: &String) -> (r: Result<(), RegistryError>)
        ensures
            match r {
                Ok(_) => !old(self)@.declares(name@) && final(self)@ == old(self)@.with_base(name@),
                Err(e) => {
                    &&& old(self)@.declares(name@)
                    &&& e@ == RegistryErrorView::EntryExists(name@)
                    &&& final(self)@ == old(self)@
                },
            },
    {
        if self.contains(name) {
            return Err(RegistryError::EntryExists(name.clone()));
        }
        let ghost before = self.base_entries@;
        self.base_entries.push(name.clone());
        proof {
            let after = self.base_entries@;
            assert forall|n: Seq<char>| #[trigger]
                name_set(after).contains(n) == name_set(before).insert(name@).contains(n) by {
                if name_set(after).contains(n) {
                    let i = choose|i: int| 0 <= i < after.len() && (#[trigger] after[i])@ == n;
                    if i < before.len() {
                        assert(before[i]@ == n);
                    }
                }
                if name_set(before).contains(n) {
                    let i = choose|i: int| 0 <= i < before.len() && (#[trigger] before[i])@ == n;
                    assert(after[i]@ == n);
                }
                if n == name@ {
                    assert(after[before.len() as int]@ == n);
                }
            }
            assert(name_set(after) =~= name_set(before).insert(name@));
        }
        Ok(())
    }

    /// Declares a derived dimension.
    pub fn add_derived_entry(
        &mut self,
        name: &String,
        base_representation: BaseRepresentation,
    ) -> (r: Result<(), RegistryError>)
        ensures
            match r {
                Ok(_) => {
                    &&& !old(self)@.declares(name@)
                    &&& final(self)@ == old(self)@.with_derived(name@, base_representation@)
                },
                Err(e) => {
                    &&& old(self)@.declares(name@)
                    &&& e@ == RegistryErrorView::EntryExists(name@)
                    &&& final(self)@ == old(self)@
                },
            },
    {
        if self.contains(name) {
            return Err(RegistryError::EntryExists(name.clone()));
        }
        self.derived_entries.insert(name.clone(), base_representation);
        Ok(())
    }

    /// What a name stands for.
    pub fn get_base_representation_for_name(&self, name: &String) -> (r: Result<
        BaseRepresentation,
        RegistryError,
    >)
        ensures
            match r {
                Ok(d) => self@.lookup(name@) == Ok::<Dim, RegistryErrorView>(d@),
                Err(e) => self@.lookup(name@) == Err::<Dim, RegistryErrorView>(e@),
            },
    {
        if self.is_base_entry(name) {
            Ok(
                BaseRepresentation::from_factor(
                    BaseRepresentationFactor(name.clone(), Rational::from_integer(1)),
                ),
            )
        } else {
            match self.derived_entries.get(name) {
                Some(d) => Ok(d.clone()),
                None => Err(RegistryError::UnknownEntry(name.clone())),
            }
        }
    }
}

/// A dimension has the exponents of its factors, and no others.
pub proof fn law_content_of_factors(fs: Seq<BaseRepresentationFactor>)
    requires
        canonical(fs),
    ensures
        forall|i: int|
            0 <= i < fs.len() ==> factors_dim(fs).contains_key((#[trigger] fs[i]).0@)
                && factors_dim(fs)[fs[i].0@] == fs[i].1@,
        forall|n: Seq<char>| #[trigger]
            factors_dim(fs).contains_key(n) ==> exists|i: int|
                0 <= i < fs.len() && (#[trigger] fs[i]).0@ == n,
{
    assert forall|i: int| 0 <= i < fs.len() implies factors_dim(fs).contains_key(
        (#[trigger] fs[i]).0@,
    ) && factors_dim(fs)[fs[i].0@] == fs[i].1@ by {
        lemma_factor(fs, i);
    }
}

/// Each base dimension is a factor once, with an exponent in lowest terms that is not zero.
pub proof fn law_factors_are_canonical(fs: Seq<BaseRepresentationFactor>)
    ensures
        canonical(fs) <==> {
            &&& forall|i: int, j: int|
                0 <= i < fs.len() && 0 <= j < fs.len() && (#[trigger] fs[i]).0@ == (
                #[trigger] fs[j]).0@ ==> i == j
            &&& forall|i: int|
                0 <= i < fs.len() ==> ratio::lowest_terms((#[trigger] fs[i]).1@) && fs[i].1@.numer
                    != 0
        },
{
    assert forall|i: int| 0 <= i < fs.len() implies (#[trigger] fs[i]).1@.reduced()
        == ratio::lowest_terms(fs[i].1@) by {
        ratio::law_reduced_is_lowest_terms(fs[i].1@);
    }
    if forall|i: int, j: int|
        0 <= i < j < fs.len() ==> (#[trigger] fs[i]).0@ != (#[trigger] fs[j]).0@ {
        assert forall|i: int, j: int|
            0 <= i < fs.len() && 0 <= j < fs.len() && (#[trigger] fs[i]).0@ == (
            #[trigger] fs[j]).0@ implies i == j by {
            if i < j {
                assert(fs[i].0@ != fs[j].0@);
            } else if j < i {
                assert(fs[j].0@ != fs[i].0@);
            }
        }
    }
}

/// Two dimensions are equal if and only if they have the same base dimensions with the same
/// exponents.
pub proof fn law_equality(a: BaseRepresentation, b: BaseRepresentation)
    ensures
        a.eq_spec(&b) <==> {
            &&& forall|n: Seq<char>| #[trigger] a@.contains_key(n) <==> b@.contains_key(n)
            &&& forall|n: Seq<char>| a@.contains_key(n) ==> #[trigger] a@[n] == b@[n]
        },
{
    if (forall|n: Seq<char>| #[trigger] a@.contains_key(n) <==> b@.contains_key(n)) && (forall|
        n: Seq<char>,
    | a@.contains_key(n) ==> #[trigger] a@[n] == b@[n]) {
        assert(a@ =~= b@);
    }
}

/// A refusal by the table of dimensions names the dimension.
pub proof fn law_content_of_registry_error(name: String)
    ensures
        RegistryError::EntryExists(name)@ == RegistryErrorView::EntryExists(name@),
        RegistryError::UnknownEntry(name)@ == RegistryErrorView::UnknownEntry(name@),
{
}

} // verus!
