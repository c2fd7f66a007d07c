use dimcheck::arithmetic::Rational;

fn parts(r: Option<Rational>) -> Option<(i128, i128)> {
    r.map(|r| (r.numer(), r.denom()))
}

#[test]
fn rationals_are_in_lowest_terms() {
    assert_eq!(parts(Some(Rational::new(6, 4))), Some((3, 2)));
    assert_eq!(parts(Some(Rational::new(-6, 4))), Some((-3, 2)));
    assert_eq!(parts(Some(Rational::new(0, 17))), Some((0, 1)));
    assert_eq!(parts(Some(Rational::new(i128::MIN, 2))), Some((i128::MIN / 2, 1)));
    assert_eq!(Rational::new(2, 2), Rational::from_integer(1));
}

#[test]
fn denominators_become_positive() {
    assert_eq!(parts(Some(Rational::new(6, -4))), Some((-3, 2)));
    assert_eq!(parts(Some(Rational::new(-6, -4))), Some((3, 2)));
    assert_eq!(parts(Some(Rational::new(0, -17))), Some((0, 1)));
    assert_eq!(parts(Some(Rational::new(2, i128::MIN))), Some((-1, i128::MAX / 2 + 1)));
    assert_eq!(parts(Some(Rational::new(i128::MIN, i128::MIN))), Some((1, 1)));
    assert_eq!(parts(Some(Rational::new(i128::MIN, -2))), Some((i128::MAX / 2 + 1, 1)));
}

#[test]
fn sums_and_differences() {
    let (x, y) = (Rational::new(1, 6), Rational::new(1, 10));
    assert_eq!(parts(x.checked_add(y)), Some((4, 15)));
    assert_eq!(parts(x.checked_sub(y)), Some((1, 15)));
    assert_eq!(parts(y.checked_sub(x)), Some((-1, 15)));
    assert_eq!(parts(x.checked_sub(x)), Some((0, 1)));
    assert_eq!(x.checked_add(y), y.checked_add(x));
}

#[test]
fn products_and_quotients() {
    let (x, y) = (Rational::new(-3, 4), Rational::new(8, 9));
    assert_eq!(parts(x.checked_mul(y)), Some((-2, 3)));
    assert_eq!(parts(x.checked_div(y)), Some((-27, 32)));
    assert_eq!(parts(y.checked_div(x)), Some((-32, 27)));
    assert_eq!(parts(x.checked_mul(x)), Some((9, 16)));
    assert_eq!(parts(x.checked_div(Rational::from_integer(0))), None);
    assert_eq!(parts(Rational::from_integer(0).checked_div(x)), Some((0, 1)));
}

#[test]
fn limits() {
    let (min, max) = (Rational::from_integer(i128::MIN), Rational::from_integer(i128::MAX));
    let one = Rational::from_integer(1);
    let minus_one = Rational::from_integer(-1);
    assert_eq!(min.checked_neg(), None);
    assert_eq!(parts(max.checked_neg()), Some((-i128::MAX, 1)));
    assert_eq!(max.checked_add(one), None);
    assert_eq!(min.checked_sub(one), None);
    assert_eq!(max.checked_sub(minus_one), None);
    assert_eq!(parts(min.checked_add(max)), Some((-1, 1)));
    assert_eq!(max.checked_mul(Rational::from_integer(2)), None);
    assert_eq!(min.checked_mul(minus_one), None);
    assert_eq!(min.checked_div(minus_one), None);
    assert_eq!(parts(min.checked_div(min)), Some((1, 1)));
    assert_eq!(one.checked_div(min), None);
    assert_eq!(parts(Rational::from_integer(2).checked_div(min)), Some((-1, 1 << 126)));
    assert_eq!(parts(max.checked_mul(Rational::new(1, i128::MAX))), Some((1, 1)));
    assert_eq!(Rational::new(1, i128::MAX).checked_add(Rational::new(1, 2)), None);
}
