//! The mathematics of fractions in lowest terms.

use vstd::prelude::*;

verus! {

/// The magnitude of an integer.
pub open spec fn magnitude(x: int) -> nat {
    if x < 0 {
        (-x) as nat
    } else {
        x as nat
    }
}

/// The greatest common divisor, by Euclid's algorithm.
pub open spec fn gcd(a: nat, b: nat) -> nat
    decreases b,
{
    if b == 0 {
        a
    } else {
        gcd(b, a % b)
    }
}

/// Whether two integers have no common divisor but one.
pub open spec fn coprime(a: int, b: int) -> bool {
    gcd(magnitude(a), magnitude(b)) == 1
}

/// The least common multiple of two positive integers.
pub open spec fn lcm(a: int, b: int) -> int {
    a / (gcd(magnitude(a), magnitude(b)) as int) * b
}

/// A fraction.
pub struct Ratio {
    pub numer: int,
    pub denom: int,
}

impl Ratio {
    /// The fraction `numer / denom` in lowest terms, with a positive denominator.
    pub open spec fn new(numer: int, denom: int) -> Ratio {
        let g = gcd(magnitude(numer), magnitude(denom)) as int;
        if denom < 0 {
            Ratio { numer: (-numer) / g, denom: (-denom) / g }
        } else {
            Ratio { numer: numer / g, denom: denom / g }
        }
    }

    pub open spec fn from_integer(n: int) -> Ratio {
        Ratio { numer: n, denom: 1 }
    }

    pub open spec fn zero() -> Ratio {
        Ratio::from_integer(0)
    }

    pub open spec fn one() -> Ratio {
        Ratio::from_integer(1)
    }

    /// Whether the fraction is in lowest terms, with a positive denominator.
    pub open spec fn reduced(self) -> bool {
        self.denom > 0 && coprime(self.numer, self.denom)
    }

    /// Whether two fractions have the same value.
    pub open spec fn same_value(self, other: Ratio) -> bool {
        self.numer * other.denom == other.numer * self.denom
    }

    pub open spec fn negate(self) -> Ratio {
        Ratio { numer: -self.numer, denom: self.denom }
    }

    pub open spec fn plus(self, other: Ratio) -> Ratio {
        Ratio::new(
            self.numer * other.denom + other.numer * self.denom,
            self.denom * other.denom,
        )
    }

    pub open spec fn minus(self, other: Ratio) -> Ratio {
        Ratio::new(
            self.numer * other.denom - other.numer * self.denom,
            self.denom * other.denom,
        )
    }

    pub open spec fn times(self, other: Ratio) -> Ratio {
        Ratio::new(self.numer * other.numer, self.denom * other.denom)
    }

    pub open spec fn over(self, other: Ratio) -> Ratio {
        Ratio::new(self.numer * other.denom, self.denom * other.numer)
    }
}

/// Bezout's identity: some combination of two numbers is their greatest common divisor.
proof fn lemma_bezout(a: nat, b: nat) -> (c: (int, int))
    ensures
        c.0 * a + c.1 * b == gcd(a, b),
    decreases b,
{
    if b == 0 {
        (1, 0)
    } else {
        let (x, y) = lemma_bezout(b, a % b);
        let q = (a / b) as int;
        let r = (a % b) as int;
        assert(a == b * q + r) by {
            vstd::arithmetic::div_mod::lemma_fundamental_div_mod(a as int, b as int);
        }
        assert(y * a + (x - q * y) * b == x * b + y * r) by (nonlinear_arith)
            requires
                a == b * q + r,
        ;
        (y, x - q * y)
    }
}

/// The greatest common divisor divides both numbers.
proof fn lemma_gcd_divides(a: nat, b: nat) -> (q: (int, int))
    ensures
        a == q.0 * gcd(a, b),
        b == q.1 * gcd(a, b),
        a > 0 || b > 0 ==> gcd(a, b) > 0,
    decreases b,
{
    if b == 0 {
        (1, 0)
    } else {
        let (p, s) = lemma_gcd_divides(b, a % b);
        let k = (a / b) as int;
        let r = (a % b) as int;
        let g = gcd(a, b) as int;
        assert(a == b * k + r) by {
            vstd::arithmetic::div_mod::lemma_fundamental_div_mod(a as int, b as int);
        }
        assert(a == (p * k + s) * g) by (nonlinear_arith)
            requires
                a == b * k + r,
                b == p * g,
                r == s * g,
        ;
        (p * k + s, p)
    }
}

/// Coprime integers combine to one.
pub proof fn lemma_coprime_combination(a: int, b: int) -> (c: (int, int))
    requires
        coprime(a, b),
    ensures
        c.0 * a + c.1 * b == 1,
{
    let (x, y) = lemma_bezout(magnitude(a), magnitude(b));
    let u = if a < 0 {
        -x
    } else {
        x
    };
    let v = if b < 0 {
        -y
    } else {
        y
    };
    assert(u * a == x * magnitude(a)) by (nonlinear_arith)
        requires
            a < 0 ==> u == -x && magnitude(a) == -a,
            a >= 0 ==> u == x && magnitude(a) == a,
    ;
    assert(v * b == y * magnitude(b)) by (nonlinear_arith)
        requires
            b < 0 ==> v == -y && magnitude(b) == -b,
            b >= 0 ==> v == y && magnitude(b) == b,
    ;
    (u, v)
}

/// Integers that combine to one are coprime.
proof fn lemma_combination_coprime(a: int, b: int, x: int, y: int)
    requires
        x * a + y * b == 1,
    ensures
        coprime(a, b),
{
    let (p, q) = lemma_gcd_divides(magnitude(a), magnitude(b));
    let g = gcd(magnitude(a), magnitude(b)) as int;
    let ps = if a < 0 {
        -p
    } else {
        p
    };
    let qs = if b < 0 {
        -q
    } else {
        q
    };
    assert(a == ps * g) by (nonlinear_arith)
        requires
            magnitude(a) == p * g,
            a < 0 ==> ps == -p && magnitude(a) == -a,
            a >= 0 ==> ps == p && magnitude(a) == a,
    ;
    assert(b == qs * g) by (nonlinear_arith)
        requires
            magnitude(b) == q * g,
            b < 0 ==> qs == -q && magnitude(b) == -b,
            b >= 0 ==> qs == q && magnitude(b) == b,
    ;
    assert((x * ps + y * qs) * g == 1) by (nonlinear_arith)
        requires
            x * a + y * b == 1,
            a == ps * g,
            b == qs * g,
    ;
    let m = x * ps + y * qs;
    assert(g == 1) by (nonlinear_arith)
        requires
            m * g == 1,
            g >= 0,
    ;
}

pub proof fn lemma_coprime_symmetric(a: int, b: int)
    requires
        coprime(a, b),
    ensures
        coprime(b, a),
{
    let (x, y) = lemma_coprime_combination(a, b);
    lemma_combination_coprime(b, a, y, x);
}

/// What is coprime to two integers is coprime to their product.
proof fn lemma_coprime_product(a: int, b: int, c: int)
    requires
        coprime(a, b),
        coprime(a, c),
    ensures
        coprime(a, b * c),
{
    let (x, y) = lemma_coprime_combination(a, b);
    let (u, v) = lemma_coprime_combination(a, c);
    assert((x + y * b * u) * a + (y * v) * (b * c) == 1) by (nonlinear_arith)
        requires
            x * a + y * b == 1,
            u * a + v * c == 1,
    {
        assert((y * b) * (u * a + v * c) == (y * b * u) * a + (y * v) * (b * c));
        assert((x + y * b * u) * a == x * a + (y * b * u) * a);
    }
    lemma_combination_coprime(a, b * c, x + y * b * u, y * v);
}

/// Fractions in lowest terms that have the same value are the same.
pub proof fn lemma_reduced_unique(x: Ratio, y: Ratio)
    requires
        x.reduced(),
        y.reduced(),
        x.same_value(y),
    ensures
        x == y,
{
    let (s, t) = lemma_coprime_combination(x.numer, x.denom);
    let (u, v) = lemma_coprime_combination(y.numer, y.denom);
    let (a, b, c, d) = (x.numer, x.denom, y.numer, y.denom);
    let q = s * c + t * d;
    let p = u * a + v * b;
    assert(d == b * q) by (nonlinear_arith)
        requires
            q == s * c + t * d,
            s * a + t * b == 1,
            a * d == c * b,
    {
        assert(d == d * (s * a + t * b));
        assert(d * (s * a + t * b) == s * (a * d) + t * b * d);
        assert(s * (c * b) + t * b * d == b * (s * c + t * d));
    }
    assert(b == d * p) by (nonlinear_arith)
        requires
            p == u * a + v * b,
            u * c + v * d == 1,
            a * d == c * b,
    {
        assert(b == b * (u * c + v * d));
        assert(b * (u * c + v * d) == u * (c * b) + v * d * b);
        assert(u * (a * d) + v * d * b == d * (u * a + v * b));
    }
    assert(b == d) by (nonlinear_arith)
        requires
            d == b * q,
            b == d * p,
            b > 0,
            d > 0,
    {
        assert(q >= 1);
        assert(p >= 1);
    }
    assert(a == c) by (nonlinear_arith)
        requires
            a * d == c * b,
            b == d,
            d > 0,
    ;
}

/// `Ratio::new` gives a fraction in lowest terms with the value that was asked for, no larger
/// in either part.
pub proof fn lemma_new(n: int, d: int)
    requires
        d != 0,
    ensures
        Ratio::new(n, d).reduced(),
        Ratio::new(n, d).numer * d == n * Ratio::new(n, d).denom,
        magnitude(Ratio::new(n, d).numer) <= magnitude(n),
        Ratio::new(n, d).denom <= magnitude(d),
        gcd(magnitude(n), magnitude(d)) > 0,
        d > 0 ==> n == Ratio::new(n, d).numer * gcd(magnitude(n), magnitude(d)),
        magnitude(d) == Ratio::new(n, d).denom * gcd(magnitude(n), magnitude(d)),
{
    let (p, q) = lemma_gcd_divides(magnitude(n), magnitude(d));
    let (x, y) = lemma_bezout(magnitude(n), magnitude(d));
    let g = gcd(magnitude(n), magnitude(d)) as int;
    let sn = if d < 0 {
        -n
    } else {
        n
    };
    let sd = magnitude(d) as int;
    let ps = if sn < 0 {
        -p
    } else {
        p
    };
    assert(sn == ps * g) by (nonlinear_arith)
        requires
            magnitude(n) == p * g,
            sn < 0 ==> ps == -p && magnitude(n) == -sn,
            sn >= 0 ==> ps == p && magnitude(n) == sn,
    ;
    assert(sn / g == ps) by {
        vstd::arithmetic::div_mod::lemma_div_multiples_vanish(ps, g);
    }
    assert(sd / g == q) by {
        vstd::arithmetic::div_mod::lemma_div_multiples_vanish(q, g);
    }
    assert(q > 0) by (nonlinear_arith)
        requires
            sd == q * g,
            sd > 0,
            g > 0,
    ;
    assert(p >= 0) by (nonlinear_arith)
        requires
            magnitude(n) == p * g,
            g > 0,
    ;
    let xs = if sn < 0 {
        -x
    } else {
        x
    };
    assert(xs * ps + y * q == 1) by (nonlinear_arith)
        requires
            x * magnitude(n) + y * sd == g,
            magnitude(n) == p * g,
            sd == q * g,
            g > 0,
            sn < 0 ==> ps == -p && xs == -x,
            sn >= 0 ==> ps == p && xs == x,
    {
        assert(xs * ps == x * p);
        assert((x * p + y * q) * g == g);
    }
    lemma_combination_coprime(ps, q, xs, y);
    assert(ps * d == n * q) by (nonlinear_arith)
        requires
            sn == ps * g,
            sd == q * g,
            d < 0 ==> sn == -n && sd == -d,
            d >= 0 ==> sn == n && sd == d,
    {
        assert(ps * sd == sn * q) by (nonlinear_arith)
            requires
                sn == ps * g,
                sd == q * g,
        ;
    }
    assert(p <= magnitude(n) && q <= sd) by (nonlinear_arith)
        requires
            magnitude(n) == p * g,
            sd == q * g,
            g > 0,
            p >= 0,
            q > 0,
    ;
}

/// A fraction in lowest terms is what `Ratio::new` gives for every way to write its value.
pub proof fn lemma_new_is(r: Ratio, n: int, d: int)
    requires
        r.reduced(),
        d != 0,
        r.numer * d == n * r.denom,
    ensures
        Ratio::new(n, d) == r,
{
    lemma_new(n, d);
    let s = Ratio::new(n, d);
    assert(s.numer * r.denom == r.numer * s.denom) by (nonlinear_arith)
        requires
            s.numer * d == n * s.denom,
            r.numer * d == n * r.denom,
            d != 0,
    {
        assert((s.numer * r.denom) * d == (r.numer * s.denom) * d) by (nonlinear_arith)
            requires
                s.numer * d == n * s.denom,
                r.numer * d == n * r.denom,
        {
            assert((s.numer * d) * r.denom == (n * s.denom) * r.denom);
            assert((r.numer * d) * s.denom == (n * r.denom) * s.denom);
        }
    }
    lemma_reduced_unique(s, r);
}

/// Divisors of coprime integers are coprime.
proof fn lemma_coprime_divisors(a: int, b: int, g: int, h: int)
    requires
        coprime(a * g, b * h),
    ensures
        coprime(a, b),
{
    let (x, y) = lemma_coprime_combination(a * g, b * h);
    assert((x * g) * a + (y * h) * b == 1) by (nonlinear_arith)
        requires
            x * (a * g) + y * (b * h) == 1,
    ;
    lemma_combination_coprime(a, b, x * g, y * h);
}

/// Cancelling crosswise before multiplying leaves the product in lowest terms.
pub proof fn lemma_cross_cancel(x: Ratio, y: Ratio)
    requires
        x.reduced(),
        y.reduced(),
    ensures
        ({
            let p = Ratio::new(x.numer, y.denom);
            let q = Ratio::new(y.numer, x.denom);
            x.times(y) == Ratio { numer: p.numer * q.numer, denom: q.denom * p.denom }
        }),
{
    let (a, b, c, d) = (x.numer, x.denom, y.numer, y.denom);
    let p = Ratio::new(a, d);
    let q = Ratio::new(c, b);
    lemma_new(a, d);
    lemma_new(c, b);
    let g = gcd(magnitude(a), magnitude(d)) as int;
    let h = gcd(magnitude(c), magnitude(b)) as int;
    lemma_coprime_divisors(p.numer, q.denom, g, h);
    lemma_coprime_divisors(q.numer, p.denom, h, g);
    lemma_coprime_product(p.numer, q.denom, p.denom);
    lemma_coprime_product(q.numer, q.denom, p.denom);
    let e = q.denom * p.denom;
    lemma_coprime_symmetric(p.numer, e);
    lemma_coprime_symmetric(q.numer, e);
    lemma_coprime_product(e, p.numer, q.numer);
    lemma_coprime_symmetric(e, p.numer * q.numer);
    assert(e > 0 && b * d > 0) by (nonlinear_arith)
        requires
            e == q.denom * p.denom,
            q.denom > 0,
            p.denom > 0,
            b > 0,
            d > 0,
    ;
    assert((p.numer * q.numer) * (b * d) == (a * c) * e) by (nonlinear_arith)
        requires
            e == q.denom * p.denom,
            a == p.numer * g,
            d == p.denom * g,
            c == q.numer * h,
            b == q.denom * h,
    {
        assert((p.numer * q.numer) * ((q.denom * h) * (p.denom * g)) == ((p.numer * g) * (q.numer
            * h)) * (q.denom * p.denom));
    }
    lemma_new_is(Ratio { numer: p.numer * q.numer, denom: e }, a * c, b * d);
}

/// Two denominators divide their least common multiple.
pub proof fn lemma_lcm(b: int, d: int)
    requires
        b > 0,
        d > 0,
    ensures
        lcm(b, d) > 0,
        lcm(b, d) / b * b == lcm(b, d),
        lcm(b, d) / d * d == lcm(b, d),
        lcm(b, d) / b > 0,
        lcm(b, d) / d > 0,
        gcd(magnitude(b), magnitude(d)) > 0,
{
    let (p, q) = lemma_gcd_divides(magnitude(b), magnitude(d));
    let g = gcd(magnitude(b), magnitude(d)) as int;
    vstd::arithmetic::div_mod::lemma_div_multiples_vanish(p, g);
    let l = lcm(b, d);
    assert(l == p * d);
    assert(p * d == q * b) by (nonlinear_arith)
        requires
            b == p * g,
            d == q * g,
    ;
    assert(p > 0 && q > 0) by (nonlinear_arith)
        requires
            b == p * g,
            d == q * g,
            b > 0,
            d > 0,
            g > 0,
    ;
    vstd::arithmetic::div_mod::lemma_div_multiples_vanish(p, d);
    vstd::arithmetic::div_mod::lemma_div_multiples_vanish(q, b);
    assert(l > 0) by (nonlinear_arith)
        requires
            l == p * d,
            p > 0,
            d > 0,
    ;
}

/// The greatest common divisor does not depend on the order of the numbers.
proof fn lemma_gcd_commutes(a: nat, b: nat)
    ensures
        gcd(a, b) == gcd(b, a),
{
    if b == 0 && a > 0 {
        assert(gcd(0, a) == gcd(a, 0nat % a));
    } else if b > 0 {
        let (g, h) = (gcd(a, b) as int, gcd(b, a) as int);
        let (p, q) = lemma_gcd_divides(a, b);
        let (s, t) = lemma_gcd_divides(b, a);
        let (x, y) = lemma_bezout(a, b);
        let (u, v) = lemma_bezout(b, a);
        assert(g == (x * t + y * s) * h) by (nonlinear_arith)
            requires
                g == x * a + y * b,
                a == t * h,
                b == s * h,
        ;
        assert(h == (u * q + v * p) * g) by (nonlinear_arith)
            requires
                h == u * b + v * a,
                a == p * g,
                b == q * g,
        ;
        let (m, n) = (x * t + y * s, u * q + v * p);
        assert(g == h) by (nonlinear_arith)
            requires
                g == m * h,
                h == n * g,
                g > 0,
                h > 0,
        {
            assert(m >= 1);
            assert(n >= 1);
        }
    }
}

/// The least common multiple does not depend on the order of the numbers.
pub proof fn lemma_lcm_commutes(b: int, d: int)
    requires
        b > 0,
        d > 0,
    ensures
        lcm(b, d) == lcm(d, b),
{
    lemma_gcd_commutes(magnitude(b), magnitude(d));
    let (p, q) = lemma_gcd_divides(magnitude(b), magnitude(d));
    let g = gcd(magnitude(b), magnitude(d)) as int;
    vstd::arithmetic::div_mod::lemma_div_multiples_vanish(p, g);
    vstd::arithmetic::div_mod::lemma_div_multiples_vanish(q, g);
    assert(p * d == q * b) by (nonlinear_arith)
        requires
            b == p * g,
            d == q * g,
    ;
}

/// Adding over the least common denominator gives the sum.
pub proof fn lemma_common_denominator(x: Ratio, y: Ratio)
    requires
        x.denom > 0,
        y.denom > 0,
    ensures
        ({
            let l = lcm(x.denom, y.denom);
            let u = x.numer * (l / x.denom);
            let v = y.numer * (l / y.denom);
            x.plus(y) == Ratio::new(u + v, l) && x.minus(y) == Ratio::new(u - v, l)
        }),
{
    lemma_lcm(x.denom, y.denom);
    let (a, b, c, d) = (x.numer, x.denom, y.numer, y.denom);
    let l = lcm(b, d);
    let (m, k) = (l / b, l / d);
    let (u, v) = (a * m, c * k);
    assert(b * d > 0) by (nonlinear_arith)
        requires
            b > 0,
            d > 0,
    ;
    assert(u * (b * d) == (a * d) * l && v * (b * d) == (c * b) * l) by (nonlinear_arith)
        requires
            u == a * m,
            v == c * k,
            m * b == l,
            k * d == l,
    {
        assert((a * m) * (b * d) == (a * d) * (m * b));
        assert((c * k) * (b * d) == (c * b) * (k * d));
    }
    assert((a * d + c * b) * l == (u + v) * (b * d) && (a * d - c * b) * l == (u - v) * (b * d))
        by (nonlinear_arith)
        requires
            u * (b * d) == (a * d) * l,
            v * (b * d) == (c * b) * l,
    ;
    lemma_same_quotient(a * d + c * b, b * d, u + v, l);
    lemma_same_quotient(a * d - c * b, b * d, u - v, l);
}

/// Two ways to write one value have the same lowest terms.
pub proof fn lemma_same_quotient(n: int, d: int, m: int, e: int)
    requires
        d != 0,
        e != 0,
        n * e == m * d,
    ensures
        Ratio::new(n, d) == Ratio::new(m, e),
{
    lemma_new(m, e);
    let r = Ratio::new(m, e);
    assert(r.numer * d == n * r.denom) by (nonlinear_arith)
        requires
            r.numer * e == m * r.denom,
            n * e == m * d,
            e != 0,
    {
        assert((r.numer * d) * e == (n * r.denom) * e) by (nonlinear_arith)
            requires
                r.numer * e == m * r.denom,
                n * e == m * d,
        {
            assert((r.numer * e) * d == (m * r.denom) * d);
            assert((n * e) * r.denom == (m * d) * r.denom);
        }
    }
    lemma_new_is(r, n, d);
}

/// A whole number is in lowest terms.
pub proof fn lemma_from_integer(n: int)
    ensures
        Ratio::from_integer(n).reduced(),
{
    lemma_combination_coprime(n, 1, 0, 1);
}

/// Zero changes nothing when it is added.
pub proof fn lemma_plus_zero(r: Ratio)
    requires
        r.reduced(),
    ensures
        r.plus(Ratio::zero()) == r,
        Ratio::zero().plus(r) == r,
{
    lemma_new_is(r, r.numer, r.denom);
}

/// A fraction in lowest terms whose numerator is zero is zero.
pub proof fn lemma_zero(r: Ratio)
    requires
        r.reduced(),
        r.numer == 0,
    ensures
        r == Ratio::zero(),
{
    lemma_from_integer(0);
    lemma_reduced_unique(r, Ratio::zero());
}

/// Results of the operations are in lowest terms.
pub proof fn lemma_closed(x: Ratio, y: Ratio)
    requires
        x.denom > 0,
        y.denom > 0,
    ensures
        x.plus(y).reduced(),
        x.minus(y).reduced(),
        x.times(y).reduced(),
        y.numer != 0 ==> x.over(y).reduced(),
{
    assert(x.denom * y.denom > 0) by (nonlinear_arith)
        requires
            x.denom > 0,
            y.denom > 0,
    ;
    lemma_new(x.numer * y.denom + y.numer * x.denom, x.denom * y.denom);
    lemma_new(x.numer * y.denom - y.numer * x.denom, x.denom * y.denom);
    lemma_new(x.numer * y.numer, x.denom * y.denom);
    if y.numer != 0 {
        assert(x.denom * y.numer != 0) by (nonlinear_arith)
            requires
                x.denom > 0,
                y.numer != 0,
        ;
        lemma_new(x.numer * y.denom, x.denom * y.numer);
    }
}

pub proof fn lemma_negate(x: Ratio)
    requires
        x.reduced(),
    ensures
        x.negate().reduced(),
        x.times(Ratio::from_integer(-1)) == x.negate(),
{
    lemma_new_is(x.negate(), x.numer * -1, x.denom * 1);
}

pub proof fn lemma_plus_commutes(x: Ratio, y: Ratio)
    ensures
        x.plus(y) == y.plus(x),
{
    assert(x.denom * y.denom == y.denom * x.denom) by (nonlinear_arith);
}

pub proof fn lemma_times_commutes(x: Ratio, y: Ratio)
    ensures
        x.times(y) == y.times(x),
{
    assert(x.denom * y.denom == y.denom * x.denom) by (nonlinear_arith);
    assert(x.numer * y.numer == y.numer * x.numer) by (nonlinear_arith);
}

/// An addend may be reduced before or after the addition.
proof fn lemma_new_plus(n: int, d: int, z: Ratio)
    requires
        d > 0,
        z.denom > 0,
    ensures
        Ratio::new(n, d).plus(z) == Ratio::new(n * z.denom + z.numer * d, d * z.denom),
{
    lemma_new(n, d);
    let s = Ratio::new(n, d);
    let (p, q) = (s.numer, s.denom);
    let (u, v) = (z.numer, z.denom);
    assert((p * v + u * q) * (d * v) == (p * v) * (d * v) + (u * q) * (d * v)) by (nonlinear_arith);
    assert((n * v + u * d) * (q * v) == (n * v) * (q * v) + (u * d) * (q * v)) by (nonlinear_arith);
    assert((p * v) * (d * v) == (p * d) * (v * v)) by (nonlinear_arith);
    assert((n * v) * (q * v) == (n * q) * (v * v)) by (nonlinear_arith);
    assert((u * q) * (d * v) == (u * d) * (q * v)) by (nonlinear_arith);
    assert((p * v + u * q) * (d * v) == (n * v + u * d) * (q * v));
    assert(q * v != 0 && d * v != 0) by (nonlinear_arith)
        requires
            q > 0,
            v > 0,
            d > 0,
    ;
    lemma_same_quotient(p * v + u * q, q * v, n * v + u * d, d * v);
}

/// A factor may be reduced before or after the multiplication.
proof fn lemma_new_times(n: int, d: int, z: Ratio)
    requires
        d > 0,
        z.denom > 0,
    ensures
        Ratio::new(n, d).times(z) == Ratio::new(n * z.numer, d * z.denom),
{
    lemma_new(n, d);
    let s = Ratio::new(n, d);
    let (p, q) = (s.numer, s.denom);
    let (u, v) = (z.numer, z.denom);
    assert((p * u) * (d * v) == (n * u) * (q * v)) by (nonlinear_arith)
        requires
            p * d == n * q,
    {
        assert((p * u) * (d * v) == (p * d) * (u * v));
        assert((n * u) * (q * v) == (n * q) * (u * v));
    }
    assert(q * v != 0 && d * v != 0) by (nonlinear_arith)
        requires
            q > 0,
            v > 0,
            d > 0,
    ;
    lemma_same_quotient(p * u, q * v, n * u, d * v);
}

pub proof fn lemma_plus_associates(x: Ratio, y: Ratio, z: Ratio)
    requires
        x.denom > 0,
        y.denom > 0,
        z.denom > 0,
    ensures
        x.plus(y).plus(z) == x.plus(y.plus(z)),
{
    let (a, b, c, d, e, f) = (x.numer, x.denom, y.numer, y.denom, z.numer, z.denom);
    assert(b * d > 0 && d * f > 0) by (nonlinear_arith)
        requires
            b > 0,
            d > 0,
            f > 0,
    ;
    lemma_new_plus(a * d + c * b, b * d, z);
    lemma_new_plus(c * f + e * d, d * f, x);
    lemma_plus_commutes(x, y.plus(z));
    assert((a * d + c * b) * f == (a * d) * f + (c * b) * f) by (nonlinear_arith);
    assert((c * f + e * d) * b == (c * f) * b + (e * d) * b) by (nonlinear_arith);
    assert((a * d) * f == a * (d * f)) by (nonlinear_arith);
    assert((c * b) * f == (c * f) * b) by (nonlinear_arith);
    assert(e * (b * d) == (e * d) * b) by (nonlinear_arith);
    assert((b * d) * f == (d * f) * b) by (nonlinear_arith);
}

pub proof fn lemma_times_associates(x: Ratio, y: Ratio, z: Ratio)
    requires
        x.denom > 0,
        y.denom > 0,
        z.denom > 0,
    ensures
        x.times(y).times(z) == x.times(y.times(z)),
{
    let (a, b, c, d, e, f) = (x.numer, x.denom, y.numer, y.denom, z.numer, z.denom);
    assert(b * d > 0 && d * f > 0) by (nonlinear_arith)
        requires
            b > 0,
            d > 0,
            f > 0,
    ;
    lemma_new_times(a * c, b * d, z);
    lemma_new_times(c * e, d * f, x);
    lemma_times_commutes(x, y.times(z));
    assert((a * c) * e == (c * e) * a) by (nonlinear_arith);
    assert((b * d) * f == (d * f) * b) by (nonlinear_arith);
}

pub proof fn lemma_times_distributes(x: Ratio, y: Ratio, z: Ratio)
    requires
        x.denom > 0,
        y.denom > 0,
        z.denom > 0,
    ensures
        x.plus(y).times(z) == x.times(z).plus(y.times(z)),
{
    let (a, b, c, d, e, f) = (x.numer, x.denom, y.numer, y.denom, z.numer, z.denom);
    assert(b * d > 0 && d * f > 0 && b * f > 0) by (nonlinear_arith)
        requires
            b > 0,
            d > 0,
            f > 0,
    ;
    lemma_new_times(a * d + c * b, b * d, z);
    lemma_closed(y, z);
    lemma_new_plus(a * e, b * f, y.times(z));
    let t = y.times(z);
    lemma_plus_commutes(Ratio { numer: a * e, denom: b * f }, t);
    lemma_new_plus(c * e, d * f, Ratio { numer: a * e, denom: b * f });
    let (n, m) = ((a * d + c * b) * e, (b * d) * f);
    let (p, q) = ((c * e) * (b * f) + (a * e) * (d * f), (d * f) * (b * f));
    let (k, h) = (a * d + c * b, b * d);
    assert(p == k * (e * f)) by {
        assert((c * e) * (b * f) == (c * b) * (e * f)) by (nonlinear_arith);
        assert((a * e) * (d * f) == (a * d) * (e * f)) by (nonlinear_arith);
        assert((a * d + c * b) * (e * f) == (a * d) * (e * f) + (c * b) * (e * f))
            by (nonlinear_arith);
    }
    assert(q == h * (f * f)) by {
        assert((d * f) * (b * f) == (b * d) * (f * f)) by (nonlinear_arith);
    }
    assert((k * e) * (h * (f * f)) == (k * (e * f)) * (h * f)) by (nonlinear_arith);
    assert(m != 0 && q != 0) by (nonlinear_arith)
        requires
            m == (b * d) * f,
            q == (d * f) * (b * f),
            b > 0,
            d > 0,
            f > 0,
    {
        assert(b * d > 0);
        assert(d * f > 0);
        assert(b * f > 0);
    }
    lemma_same_quotient(n, m, p, q);
}

/// A number and its negative cancel.
pub proof fn lemma_plus_negate(x: Ratio)
    requires
        x.reduced(),
    ensures
        x.plus(x.negate()) == Ratio::zero(),
{
    let (a, b) = (x.numer, x.denom);
    assert(a * b + (-a) * b == 0 && b * b > 0) by (nonlinear_arith)
        requires
            b > 0,
    ;
    lemma_from_integer(0);
    lemma_new_is(Ratio::zero(), a * b + (-a) * b, b * b);
}

pub proof fn lemma_times_zero_one(x: Ratio)
    requires
        x.reduced(),
    ensures
        x.times(Ratio::zero()) == Ratio::zero(),
        Ratio::zero().times(x) == Ratio::zero(),
        x.times(Ratio::one()) == x,
{
    lemma_from_integer(0);
    lemma_new_is(Ratio::zero(), x.numer * 0, x.denom * 1);
    lemma_times_commutes(x, Ratio::zero());
    lemma_new_is(x, x.numer * 1, x.denom * 1);
}

/// Whether an integer is a multiple of another.
pub open spec fn divides(k: int, n: int) -> bool {
    n % k == 0
}

/// Whether a fraction has a positive denominator, and numerator and denominator have no common
/// divisor but one.
pub open spec fn lowest_terms(r: Ratio) -> bool {
    r.denom > 0 && forall|k: int| k > 1 && #[trigger] divides(k, r.numer) ==> !divides(k, r.denom)
}

/// Whether a fraction is the quotient of two integers in lowest terms.
pub open spec fn is_quotient(r: Ratio, n: int, d: int) -> bool {
    lowest_terms(r) && r.numer * d == n * r.denom
}

/// Euclid's algorithm tells whether a fraction is in lowest terms.
pub proof fn law_reduced_is_lowest_terms(r: Ratio)
    ensures
        r.reduced() <==> lowest_terms(r),
{
    let (a, b) = (r.numer, r.denom);
    if r.reduced() {
        let (x, y) = lemma_coprime_combination(a, b);
        assert forall|k: int| k > 1 && #[trigger] divides(k, a) implies !divides(k, b) by {
            if divides(k, b) {
                let (p, q) = (a / k, b / k);
                vstd::arithmetic::div_mod::lemma_fundamental_div_mod(a, k);
                vstd::arithmetic::div_mod::lemma_fundamental_div_mod(b, k);
                assert(k * (x * p + y * q) == 1) by (nonlinear_arith)
                    requires
                        x * a + y * b == 1,
                        a == k * p,
                        b == k * q,
                ;
                let m = x * p + y * q;
                assert(false) by (nonlinear_arith)
                    requires
                        k * m == 1,
                        k > 1,
                ;
            }
        }
    }
    if lowest_terms(r) {
        let g = gcd(magnitude(a), magnitude(b)) as int;
        let (p, q) = lemma_gcd_divides(magnitude(a), magnitude(b));
        let ps = if a < 0 {
            -p
        } else {
            p
        };
        assert(a == ps * g) by (nonlinear_arith)
            requires
                magnitude(a) == p * g,
                a < 0 ==> ps == -p && magnitude(a) == -a,
                a >= 0 ==> ps == p && magnitude(a) == a,
        ;
        assert(g > 0);
        vstd::arithmetic::div_mod::lemma_mod_multiples_basic(ps, g);
        vstd::arithmetic::div_mod::lemma_mod_multiples_basic(q, g);
        assert(divides(g, a) && divides(g, b));
    }
}

/// A quotient of integers is one fraction.
pub proof fn law_quotient_is_unique(r: Ratio, s: Ratio, n: int, d: int)
    requires
        d != 0,
        is_quotient(r, n, d),
        is_quotient(s, n, d),
    ensures
        r == s,
{
    law_reduced_is_lowest_terms(r);
    law_reduced_is_lowest_terms(s);
    lemma_new_is(r, n, d);
    lemma_new_is(s, n, d);
}

/// A fraction is made of two integers by division.
pub proof fn law_new_is_quotient(n: int, d: int)
    requires
        d != 0,
    ensures
        is_quotient(Ratio::new(n, d), n, d),
{
    lemma_new(n, d);
    law_reduced_is_lowest_terms(Ratio::new(n, d));
}

/// A whole number is a fraction with the denominator one.
pub proof fn law_whole_number(n: int)
    ensures
        Ratio::from_integer(n).numer == n,
        Ratio::from_integer(n).denom == 1,
        Ratio::zero() == Ratio::from_integer(0),
        Ratio::one() == Ratio::from_integer(1),
{
}

/// Sums, differences, products and quotients of fractions are those of their values, and so is the
/// negative.
pub proof fn law_operations_are_exact(x: Ratio, y: Ratio)
    requires
        lowest_terms(x),
        lowest_terms(y),
    ensures
        is_quotient(
            x.plus(y),
            x.numer * y.denom + y.numer * x.denom,
            x.denom * y.denom,
        ),
        is_quotient(
            x.minus(y),
            x.numer * y.denom - y.numer * x.denom,
            x.denom * y.denom,
        ),
        is_quotient(x.times(y), x.numer * y.numer, x.denom * y.denom),
        y.numer != 0 ==> is_quotient(x.over(y), x.numer * y.denom, x.denom * y.numer),
        is_quotient(x.negate(), -x.numer, x.denom),
{
    let (b, d) = (x.denom, y.denom);
    assert(b * d > 0) by (nonlinear_arith)
        requires
            b > 0,
            d > 0,
    ;
    law_new_is_quotient(x.numer * d + y.numer * b, b * d);
    law_new_is_quotient(x.numer * d - y.numer * b, b * d);
    law_new_is_quotient(x.numer * y.numer, b * d);
    if y.numer != 0 {
        let c = y.numer;
        assert(b * c != 0) by (nonlinear_arith)
            requires
                b > 0,
                c != 0,
        ;
        law_new_is_quotient(x.numer * d, b * c);
    }
    law_reduced_is_lowest_terms(x);
    lemma_negate(x);
    law_reduced_is_lowest_terms(x.negate());
}

/// A difference and what was subtracted add up, and a quotient times the divisor is the dividend.
pub proof fn law_operations_are_undone(x: Ratio, y: Ratio)
    requires
        x.reduced(),
        y.reduced(),
    ensures
        x.minus(y).plus(y) == x,
        y.numer != 0 ==> x.over(y).times(y) == x,
        x.minus(y) == x.plus(y.negate()),
{
    let (a, b, c, d) = (x.numer, x.denom, y.numer, y.denom);
    assert(b * d > 0) by (nonlinear_arith)
        requires
            b > 0,
            d > 0,
    ;
    lemma_negate(y);
    assert(a * d + (-c) * b == a * d - c * b) by (nonlinear_arith);
    lemma_closed(x, y);
    lemma_plus_associates(x, y.negate(), y);
    lemma_plus_commutes(y.negate(), y);
    lemma_plus_negate(y);
    lemma_plus_zero(x);
    if c != 0 {
        let q = x.over(y);
        assert(b * c != 0) by (nonlinear_arith)
            requires
                b > 0,
                c != 0,
        ;
        lemma_new(a * d, b * c);
        let (m, n) = (q.numer, q.denom);
        assert(a * (n * d) == (m * c) * b && n * d > 0) by (nonlinear_arith)
            requires
                m * (b * c) == (a * d) * n,
                n > 0,
                d > 0,
        ;
        lemma_new_is(x, m * c, n * d);
    }
}

/// Every common multiple is a multiple of the least one.
pub proof fn lemma_lcm_least(b: int, d: int, l: int) -> (k: int)
    requires
        b > 0,
        d > 0,
        l > 0,
        divides(b, l),
        divides(d, l),
    ensures
        k >= 1,
        l == k * lcm(b, d),
{
    let (x, y) = lemma_bezout(magnitude(b), magnitude(d));
    let (p, q) = lemma_gcd_divides(magnitude(b), magnitude(d));
    let g = gcd(magnitude(b), magnitude(d)) as int;
    vstd::arithmetic::div_mod::lemma_div_multiples_vanish(p, g);
    assert(b == g * p) by (nonlinear_arith)
        requires
            b == p * g,
    ;
    let (m, n) = (l / b, l / d);
    vstd::arithmetic::div_mod::lemma_fundamental_div_mod(l, b);
    vstd::arithmetic::div_mod::lemma_fundamental_div_mod(l, d);
    let k = n * x + m * y;
    let c = p * d;
    assert(lcm(b, d) == c);
    assert(g * l == x * b * l + y * d * l) by (nonlinear_arith)
        requires
            x * b + y * d == g,
    ;
    assert(x * b * l == (b * d) * (n * x)) by (nonlinear_arith)
        requires
            l == d * n,
    ;
    assert(y * d * l == (b * d) * (m * y)) by (nonlinear_arith)
        requires
            l == b * m,
    ;
    assert((b * d) * (n * x) + (b * d) * (m * y) == (b * d) * k) by (nonlinear_arith)
        requires
            k == n * x + m * y,
    ;
    assert(b * d == g * c) by (nonlinear_arith)
        requires
            b == p * g,
            c == p * d,
    ;
    assert((g * c) * k == g * (k * c)) by (nonlinear_arith);
    assert(l == k * c) by (nonlinear_arith)
        requires
            g * l == g * (k * c),
            g > 0,
    ;
    lemma_lcm(b, d);
    assert(k >= 1) by (nonlinear_arith)
        requires
            l == k * c,
            l > 0,
            c > 0,
    ;
    k
}

} // verus!
