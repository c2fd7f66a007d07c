use dimcheck::arithmetic::Rational;
use dimcheck::ast::DimensionExpression;
use dimcheck::dimension::DimensionRegistry;
use dimcheck::fault::Fault;
use dimcheck::name_map::NameMap;
use dimcheck::registry::{BaseRepresentation, BaseRepresentationFactor, Registry, RegistryError};

fn factor(name: &str, numer: i128, denom: i128) -> BaseRepresentation {
    BaseRepresentation::from_factor(BaseRepresentationFactor(
        name.into(),
        Rational::new(numer, denom),
    ))
}

fn named(name: &str) -> DimensionExpression {
    DimensionExpression::Dimension(name.into())
}

#[test]
fn products_add_exponents() {
    let (l, t) = (factor("L", 1, 1), factor("T", 1, 1));
    let speed = l.clone().divide(t.clone());
    assert_eq!(speed, factor("T", -1, 1).multiply(factor("L", 1, 1)));
    assert_eq!(speed.factors().len(), 2);
    assert_eq!(speed.clone().multiply(t.clone()), l);
    assert_eq!(speed.clone().multiply(t.clone()).factors().len(), 1);
    assert_ne!(speed, l);
    assert_ne!(speed, factor("L", 1, 1).divide(factor("T", 2, 1)));
    assert_eq!(speed.clone().divide(speed), BaseRepresentation::unity());
}

#[test]
fn dimension_algebra() {
    let a = factor("A", 1, 2).multiply(factor("B", -3, 1));
    let b = factor("B", 3, 1).multiply(factor("C", 2, 5));
    let c = factor("C", 3, 5);
    assert_eq!(a.checked_multiply(&b), b.checked_multiply(&a));
    assert_eq!(
        a.clone().multiply(b.clone()).multiply(c.clone()),
        a.clone().multiply(b.clone().multiply(c.clone()))
    );
    assert_eq!(a.clone().multiply(BaseRepresentation::unity()), a);
    assert_eq!(a.clone().multiply(b.clone()).divide(b.clone()), a);
    let (p, q) = (Rational::new(2, 3), Rational::new(-1, 4));
    assert_eq!(a.clone().power(p).power(q), a.clone().power(Rational::new(-1, 6)));
    assert_eq!(
        a.clone().power(p).multiply(a.clone().power(q)),
        a.clone().power(Rational::new(5, 12))
    );
    assert_eq!(
        a.clone().multiply(b.clone()).power(p),
        a.clone().power(p).multiply(b.clone().power(p))
    );
    assert_eq!(a.clone().power(Rational::from_integer(1)), a);
    assert_eq!(a.clone().power(Rational::from_integer(0)), BaseRepresentation::unity());
    assert_eq!(a.checked_invert(), Some(a.clone().power(Rational::from_integer(-1))));
}

#[test]
fn factor_with_exponent_zero_is_no_factor() {
    assert_eq!(factor("A", 0, 3), BaseRepresentation::unity());
    assert_eq!(factor("A", 0, 3).factors().len(), 0);
}

#[test]
fn exponents_out_of_range() {
    let huge = factor("A", i128::MAX, 1);
    assert_eq!(huge.checked_multiply(&factor("A", 1, 1)), None);
    assert!(huge.checked_multiply(&factor("B", 1, 1)).is_some());
    assert_eq!(huge.checked_power(Rational::from_integer(2)), None);
    assert_eq!(factor("A", i128::MIN, 1).checked_invert(), None);
    assert_eq!(factor("B", 1, 1).checked_divide(&factor("A", i128::MIN, 1)), None);
}

#[test]
fn registry_names() {
    let mut registry = Registry::new();
    assert_eq!(registry.add_base_entry(&"L".into()), Ok(()));
    assert_eq!(
        registry.add_base_entry(&"L".into()),
        Err(RegistryError::EntryExists("L".into()))
    );
    assert_eq!(registry.add_derived_entry(&"Area".into(), factor("L", 2, 1)), Ok(()));
    assert_eq!(
        registry.add_derived_entry(&"L".into(), factor("L", 2, 1)),
        Err(RegistryError::EntryExists("L".into()))
    );
    assert!(registry.is_base_entry(&"L".into()));
    assert!(!registry.is_base_entry(&"Area".into()));
    let copy = registry.clone();
    assert_eq!(copy.get_base_representation_for_name(&"Area".into()), Ok(factor("L", 2, 1)));
    assert_eq!(copy.get_base_representation_for_name(&"L".into()), Ok(factor("L", 1, 1)));
    assert_eq!(
        copy.get_base_representation_for_name(&"M".into()),
        Err(RegistryError::UnknownEntry("M".into()))
    );
}

#[test]
fn dimension_expressions() {
    let mut registry = DimensionRegistry::new();
    assert_eq!(registry.add_base_dimension(&"L".into()), Ok(()));
    assert_eq!(registry.add_base_dimension(&"T".into()), Ok(()));
    let speed = DimensionExpression::Divide(Box::new(named("L")), Box::new(named("T")));
    assert_eq!(registry.try_add_derived_dimension(&"Speed".into(), &speed), Ok(()));
    assert_eq!(
        registry.try_add_derived_dimension(&"Speed".into(), &speed),
        Err(Fault::Rejected(RegistryError::EntryExists("Speed".into())))
    );
    let square = DimensionExpression::Power(Box::new(named("Speed")), Rational::from_integer(2));
    assert_eq!(
        registry.get_base_representation(&square),
        Ok(factor("L", 2, 1).multiply(factor("T", -2, 1)))
    );
    let same = DimensionExpression::Multiply(Box::new(DimensionExpression::Unity), Box::new(square));
    assert_eq!(
        registry.get_base_representation(&same),
        Ok(factor("L", 2, 1).divide(factor("T", 2, 1)))
    );
    assert_eq!(
        registry.get_base_representation(&named("Mass")),
        Err(RegistryError::UnknownEntry("Mass".into()))
    );
    let huge = DimensionExpression::Power(
        Box::new(DimensionExpression::Power(
            Box::new(named("L")),
            Rational::from_integer(i128::MAX),
        )),
        Rational::from_integer(2),
    );
    assert_eq!(registry.try_get_base_representation(&huge), Err(Fault::Undefined));
}

#[test]
fn name_maps() {
    let mut map: NameMap<BaseRepresentation> = NameMap::new();
    assert!(map.get(&"x".into()).is_none());
    map.insert("x".into(), factor("L", 1, 1));
    map.insert("y".into(), factor("T", 1, 1));
    map.insert("x".into(), factor("M", 1, 1));
    assert_eq!(map.get(&"x".into()), Some(&factor("M", 1, 1)));
    assert_eq!(map.get(&"y".into()), Some(&factor("T", 1, 1)));
}
