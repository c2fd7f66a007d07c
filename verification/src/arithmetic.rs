//! Exact rational numbers, the exponents of physical dimensions.

use vstd::prelude::*;
use crate::ratio;
use crate::ratio::Ratio;

verus! {

/// A rational number in lowest terms.
#[derive(Clone, Copy, Debug, PartialEq, Eq, Structural, Hash)]
pub struct Rational {
    pub(crate) numer: i128,
    pub(crate) denom: i128,
}

/// The exponent of a base dimension.
pub type Exponent = Rational;

impl View for Rational {
    type V = Ratio;

    open(crate) spec fn view(&self) -> Ratio {
        Ratio { numer: self.numer as int, denom: self.denom as int }
    }
}

/// Whether an integer is within the range of the parts of a `Rational`.
pub open spec fn in_range(x: int) -> bool {
    i128::MIN <= x <= i128::MAX
}

/// Whether a fraction can be held as a `Rational`.
pub open spec fn fits(r: Ratio) -> bool {
    in_range(r.numer) && in_range(r.denom)
}

/// Whether two fractions, brought to their least common denominator, stay within range.
pub open spec fn common_denominator_fits(x: Ratio, y: Ratio) -> bool {
    let l = ratio::lcm(x.denom, y.denom);
    &&& in_range(l)
    &&& in_range(x.numer * (l / x.denom))
    &&& in_range(y.numer * (l / y.denom))
}

/// Whether a sum can be computed: it is formed over the least common denominator.
pub open spec fn sum_fits(x: Ratio, y: Ratio) -> bool {
    let l = ratio::lcm(x.denom, y.denom);
    &&& common_denominator_fits(x, y)
    &&& in_range(x.numer * (l / x.denom) + y.numer * (l / y.denom))
}

/// Whether a difference can be computed: it is formed over the least common denominator.
pub open spec fn difference_fits(x: Ratio, y: Ratio) -> bool {
    let l = ratio::lcm(x.denom, y.denom);
    &&& common_denominator_fits(x, y)
    &&& in_range(x.numer * (l / x.denom) - y.numer * (l / y.denom))
}

/// Whether a quotient can be computed: there is one, and it can be held.
pub open spec fn quotient_fits(x: Ratio, y: Ratio) -> bool {
    y.numer != 0 && fits(x.over(y))
}

/// Whole numbers are added, subtracted and multiplied as integers are.
pub proof fn law_whole_numbers(a: int, b: int)
    ensures
        ({
            let (x, y) = (Ratio::from_integer(a), Ratio::from_integer(b));
            &&& x.plus(y) == Ratio::from_integer(a + b)
            &&& x.minus(y) == Ratio::from_integer(a - b)
            &&& x.times(y) == Ratio::from_integer(a * b)
            &&& sum_fits(x, y) <==> in_range(a) && in_range(b) && in_range(a + b)
            &&& difference_fits(x, y) <==> in_range(a) && in_range(b) && in_range(a - b)
        }),
{
    ratio::lemma_from_integer(a + b);
    ratio::lemma_from_integer(a - b);
    ratio::lemma_from_integer(a * b);
    ratio::lemma_from_integer(1);
    ratio::lemma_new_is(Ratio::from_integer(a + b), a + b, 1);
    ratio::lemma_new_is(Ratio::from_integer(a - b), a - b, 1);
    ratio::lemma_new_is(Ratio::from_integer(a * b), a * b, 1);
    assert(ratio::lcm(1, 1) == 1) by {
        vstd::arithmetic::div_mod::lemma_div_basics(1);
    }
}

/// Computes the greatest common divisor of two magnitudes.
fn gcd_of(a: u128, b: u128) -> (g: u128)
    ensures
        g == ratio::gcd(a as nat, b as nat),
{
    let mut x: u128 = a;
    let mut y: u128 = b;
    while y != 0
        invariant
            ratio::gcd(x as nat, y as nat) == ratio::gcd(a as nat, b as nat),
        decreases y,
    {
        let r: u128 = x % y;
        x = y;
        y = r;
    }
    x
}

fn magnitude_of(x: i128) -> (m: u128)
    ensures
        m == ratio::magnitude(x as int),
{
    if x < 0 {
        let below: i128 = -(x + 1);
        below as u128 + 1
    } else {
        x as u128
    }
}

/// Gives a magnitude its sign, if the result is within range.
fn signed(negative: bool, m: u128) -> (r: Option<i128>)
    ensures
        match r {
            Some(x) => x == (if negative { -(m as int) } else { m as int }),
            None => !in_range(if negative { -(m as int) } else { m as int }),
        },
{
    let limit: u128 = i128::MAX as u128;
    if negative {
        if m > limit + 1 {
            None
        } else if m == limit + 1 {
            Some(i128::MIN)
        } else {
            Some(-(m as i128))
        }
    } else {
        if m > limit {
            None
        } else {
            Some(m as i128)
        }
    }
}

/// The product of `a / b` and `c / d`, both in lowest terms, with a sign.
fn signed_product(negative: bool, a: u128, b: u128, c: u128, d: u128) -> (r: Option<Rational>)
    requires
        b > 0,
        d > 0,
        ratio::gcd(a as nat, b as nat) == 1,
        ratio::gcd(c as nat, d as nat) == 1,
    ensures
        ({
            let x = Ratio { numer: if negative { -(a as int) } else { a as int }, denom: b as int };
            let y = Ratio { numer: c as int, denom: d as int };
            match r {
                Some(v) => v@ == x.times(y) && fits(x.times(y)),
                None => !fits(x.times(y)),
            }
        }),
{
    let ghost x = Ratio { numer: if negative { -(a as int) } else { a as int }, denom: b as int };
    let ghost y = Ratio { numer: c as int, denom: d as int };
    let ghost p = Ratio::new(x.numer, y.denom);
    let ghost q = Ratio::new(y.numer, x.denom);
    proof {
        ratio::lemma_cross_cancel(x, y);
        ratio::lemma_new(x.numer, y.denom);
        ratio::lemma_new(y.numer, x.denom);
    }
    let g: u128 = gcd_of(a, d);
    let h: u128 = gcd_of(c, b);
    let a1: u128 = a / g;
    let d1: u128 = d / g;
    let c1: u128 = c / h;
    let b1: u128 = b / h;
    proof {
        assert(p.numer == (if negative { -(a1 as int) } else { a1 as int })) by {
            let n = if negative { -p.numer } else { p.numer };
            assert(a == n * g) by (nonlinear_arith)
                requires
                    x.numer == p.numer * g,
                    negative ==> n == -p.numer && x.numer == -(a as int),
                    !negative ==> n == p.numer && x.numer == a,
            ;
            vstd::arithmetic::div_mod::lemma_div_multiples_vanish(n, g as int);
        }
        let s = if negative { -((a1 * c1) as int) } else { (a1 * c1) as int };
        assert(p.numer * q.numer == s) by (nonlinear_arith)
            requires
                q.numer == c1,
                p.numer == (if negative { -(a1 as int) } else { a1 as int }),
                s == (if negative { -((a1 * c1) as int) } else { (a1 * c1) as int }),
        ;
        assert(q.denom * p.denom == b1 * d1);
    }
    let numer: u128 = match a1.checked_mul(c1) {
        Some(m) => m,
        None => { return None; },
    };
    let denom: u128 = match b1.checked_mul(d1) {
        Some(m) => m,
        None => { return None; },
    };
    match (signed(negative, numer), signed(false, denom)) {
        (Some(n), Some(m)) => {
            proof {
                assert(x.denom * y.denom > 0) by (nonlinear_arith)
                    requires
                        x.denom > 0,
                        y.denom > 0,
                ;
                ratio::lemma_new(x.numer * y.numer, x.denom * y.denom);
            }
            Some(Rational { numer: n, denom: m })
        },
        _ => None,
    }
}

/// Reducing a fraction divides the magnitudes of its parts by their greatest common divisor.
proof fn lemma_new_magnitudes(numer: int, denom: int)
    requires
        denom != 0,
    ensures
        ({
            let r = Ratio::new(numer, denom);
            let g = ratio::gcd(ratio::magnitude(numer), ratio::magnitude(denom));
            let m = (ratio::magnitude(numer) / g) as int;
            &&& r.numer == (if (numer < 0) != (denom < 0) { -m } else { m })
            &&& r.denom == ratio::magnitude(denom) / g
        }),
{
    ratio::lemma_new(numer, denom);
    let r = Ratio::new(numer, denom);
    let g = ratio::gcd(ratio::magnitude(numer), ratio::magnitude(denom)) as int;
    let n = if denom < 0 { -numer } else { numer };
    ratio::lemma_new(n, ratio::magnitude(denom) as int);
    let k = if n < 0 { -r.numer } else { r.numer };
    assert(ratio::magnitude(numer) == g * k) by (nonlinear_arith)
        requires
            n == r.numer * g,
            n < 0 ==> k == -r.numer && ratio::magnitude(numer) == -n,
            n >= 0 ==> k == r.numer && ratio::magnitude(numer) == n,
    ;
    assert(ratio::magnitude(numer) as int / g == k) by {
        vstd::arithmetic::div_mod::lemma_div_multiples_vanish(k, g);
    }
}

/// Reducing a fraction with a positive denominator keeps it within range.
proof fn lemma_positive_denominator_fits(numer: int, denom: int)
    requires
        denom > 0,
        in_range(numer),
        in_range(denom),
    ensures
        fits(Ratio::new(numer, denom)),
{
    ratio::lemma_new(numer, denom);
    let r = Ratio::new(numer, denom);
    let g = ratio::gcd(ratio::magnitude(numer), ratio::magnitude(denom)) as int;
    assert(numer >= 0 ==> r.numer >= 0) by (nonlinear_arith)
        requires
            numer == r.numer * g,
            g > 0,
    ;
}

impl Rational {
    /// Every rational number is held in lowest terms, with a positive denominator.
    #[verifier::type_invariant]
    pub open(crate) spec fn wf(self) -> bool {
        self@.reduced()
    }

    /// The fraction `numer / denom`, reduced to lowest terms. With a negative denominator both
    /// parts change their sign, and must stay within range.
    pub fn new(numer: i128, denom: i128) -> (r: Rational)
        requires
            denom != 0,
            denom < 0 ==> fits(Ratio::new(numer as int, denom as int)),
        ensures
            r@ == Ratio::new(numer as int, denom as int),
            r@.reduced(),
            fits(r@),
    {
        let negative: bool = (numer < 0) != (denom < 0);
        let n: u128 = magnitude_of(numer);
        let d: u128 = magnitude_of(denom);
        let g: u128 = gcd_of(n, d);
        proof {
            ratio::lemma_new(numer as int, denom as int);
            lemma_new_magnitudes(numer as int, denom as int);
            if denom > 0 {
                lemma_positive_denominator_fits(numer as int, denom as int);
            }
        }
        match (signed(negative, n / g), signed(false, d / g)) {
            (Some(n), Some(d)) => Rational { numer: n, denom: d },
            _ => vstd::pervasive::unreached(),
        }
    }

    /// A whole number.
    pub fn from_integer(n: i128) -> (r: Rational)
        ensures
            r@ == Ratio::from_integer(n as int),
            r@.reduced(),
            fits(r@),
    {
        proof {
            ratio::lemma_from_integer(n as int);
        }
        Rational { numer: n, denom: 1 }
    }

    /// The numerator of the number in lowest terms.
    pub fn numer(&self) -> (n: i128)
        ensures
            n == self@.numer,
    {
        self.numer
    }

    /// The denominator of the number in lowest terms; it is positive.
    pub fn denom(&self) -> (d: i128)
        ensures
            d == self@.denom,
            d > 0,
    {
        proof {
            use_type_invariant(self);
        }
        self.denom
    }

    /// The negated number, or `None` if it is out of range.
    pub fn checked_neg(self) -> (r: Option<Rational>)
        ensures
            match r {
                Some(v) => v@ == self@.negate() && fits(self@.negate()),
                None => !fits(self@.negate()),
            },
    {
        proof {
            use_type_invariant(&self);
        }
        if self.numer == i128::MIN {
            None
        } else {
            Some(Rational { numer: -self.numer, denom: self.denom })
        }
    }

    /// The numerators of two numbers over their least common denominator, and that
    /// denominator, or `None` if one of them is out of range.
    fn over_common_denominator(self, other: Rational) -> (r: Option<(i128, i128, i128)>)
        ensures
            ({
                let l = ratio::lcm(self@.denom, other@.denom);
                match r {
                    Some((u, v, m)) => {
                        &&& common_denominator_fits(self@, other@)
                        &&& m == l && m > 0
                        &&& u == self@.numer * (l / self@.denom)
                        &&& v == other@.numer * (l / other@.denom)
                    },
                    None => !common_denominator_fits(self@, other@),
                }
            }),
    {
        proof {
            use_type_invariant(&self);
            use_type_invariant(&other);
            ratio::lemma_lcm(self.denom as int, other.denom as int);
            ratio::lemma_new(self.denom as int, other.denom as int);
        }
        let g: u128 = gcd_of(self.denom as u128, other.denom as u128);
        assert(g <= other.denom) by (nonlinear_arith)
            requires
                other.denom == Ratio::new(self.denom as int, other.denom as int).denom * g,
                Ratio::new(self.denom as int, other.denom as int).denom > 0,
        ;
        let part: i128 = self.denom / (g as i128);
        match part.checked_mul(other.denom) {
            None => None,
            Some(l) => {
                match (
                    self.numer.checked_mul(l / self.denom),
                    other.numer.checked_mul(l / other.denom),
                ) {
                    (Some(u), Some(v)) => Some((u, v, l)),
                    _ => None,
                }
            },
        }
    }

    /// The sum, or `None` if it cannot be formed within range.
    pub fn checked_add(self, other: Rational) -> (r: Option<Rational>)
        ensures
            match r {
                Some(v) => v@ == self@.plus(other@) && sum_fits(self@, other@),
                None => !sum_fits(self@, other@),
            },
    {
        proof {
            use_type_invariant(&self);
            use_type_invariant(&other);
            ratio::lemma_common_denominator(self@, other@);
        }
        match self.over_common_denominator(other) {
            None => None,
            Some((u, v, l)) => match u.checked_add(v) {
                None => None,
                Some(n) => Some(Rational::new(n, l)),
            },
        }
    }

    /// The difference, or `None` if it cannot be formed within range.
    pub fn checked_sub(self, other: Rational) -> (r: Option<Rational>)
        ensures
            match r {
                Some(v) => v@ == self@.minus(other@) && difference_fits(self@, other@),
                None => !difference_fits(self@, other@),
            },
    {
        proof {
            use_type_invariant(&self);
            use_type_invariant(&other);
            ratio::lemma_common_denominator(self@, other@);
        }
        match self.over_common_denominator(other) {
            None => None,
            Some((u, v, l)) => {
                let too_low: bool = v > 0 && u < i128::MIN + v;
                let too_high: bool = v < 0 && u > i128::MAX + v;
                if too_low || too_high {
                    None
                } else {
                    Some(Rational::new(u - v, l))
                }
            },
        }
    }

    /// The product, or `None` if it is out of range.
    pub fn checked_mul(self, other: Rational) -> (r: Option<Rational>)
        ensures
            match r {
                Some(v) => v@ == self@.times(other@) && fits(self@.times(other@)),
                None => !fits(self@.times(other@)),
            },
    {
        proof {
            use_type_invariant(&self);
            use_type_invariant(&other);
        }
        let negative: bool = (self.numer < 0) != (other.numer < 0);
        let a: u128 = magnitude_of(self.numer);
        let c: u128 = magnitude_of(other.numer);
        let ghost n = if negative { -(a as int) } else { a as int };
        assert(n * c == self.numer * other.numer) by (nonlinear_arith)
            requires
                a == (if self.numer < 0 { -(self.numer as int) } else { self.numer as int }),
                c == (if other.numer < 0 { -(other.numer as int) } else { other.numer as int }),
                n == (if (self.numer < 0) != (other.numer < 0) { -(a as int) } else { a as int }),
        ;
        signed_product(negative, a, self.denom as u128, c, other.denom as u128)
    }

    /// The quotient, or `None` if the divisor is zero or the quotient is out of range.
    pub fn checked_div(self, other: Rational) -> (r: Option<Rational>)
        ensures
            match r {
                Some(v) => v@ == self@.over(other@) && quotient_fits(self@, other@),
                None => !quotient_fits(self@, other@),
            },
    {
        proof {
            use_type_invariant(&self);
            use_type_invariant(&other);
        }
        if other.numer == 0 {
            return None;
        }
        let negative: bool = (self.numer < 0) != (other.numer < 0);
        let a: u128 = magnitude_of(self.numer);
        let c: u128 = magnitude_of(other.numer);
        proof {
            let n = if negative { -(a as int) } else { a as int };
            ratio::lemma_coprime_symmetric(other.numer as int, other.denom as int);
            let (b, d) = (self.denom as int, other.denom as int);
            let (p, q) = (self.numer as int, other.numer as int);
            assert(b * c != 0 && b * q != 0 && (p * d) * (b * c) == (n * d) * (b * q))
                by (nonlinear_arith)
                requires
                    a == (if p < 0 { -p } else { p }),
                    c == (if q < 0 { -q } else { q }),
                    n == (if (p < 0) != (q < 0) { -(a as int) } else { a as int }),
                    b > 0,
                    q != 0,
            {
                assert(p * c == n * q);
                assert((p * d) * (b * c) == (p * c) * (d * b));
                assert((n * d) * (b * q) == (n * q) * (d * b));
            }
            ratio::lemma_same_quotient(p * d, b * q, n * d, b * c);
        }
        signed_product(negative, a, self.denom as u128, other.denom as u128, c)
    }
}

} // verus!
