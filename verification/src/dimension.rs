//! The declared dimensions, and what dimension expressions stand for.

use vstd::prelude::*;
use crate::ast::DimensionExpression;
use crate::dim::Dim;
use crate::fault;
use crate::fault::Fault;
use crate::registry::{
    BaseRepresentation, Registry, RegistryError, RegistryErrorView, RegistryView,
};
use crate::rules;

verus! {

/// The declared dimensions.
#[derive(Debug)]
pub struct DimensionRegistry {
    pub(crate) registry: Registry,
}

impl View for DimensionRegistry {
    type V = RegistryView;

    open(crate) spec fn view(&self) -> RegistryView {
        self.registry@
    }
}

impl Clone for DimensionRegistry {
    fn clone(&self) -> (r: Self)
        ensures
            r@ == self@,
    {
        DimensionRegistry { registry: self.registry.clone() }
    }
}

impl DimensionRegistry {
    /// No dimensions.
    pub fn new() -> (r: DimensionRegistry)
        ensures
            r@.bases == Set::<Seq<char>>::empty(),
            r@.derived == Map::<Seq<char>, Dim>::empty(),
    {
        DimensionRegistry { registry: Registry::new() }
    }

    /// What a dimension expression stands for, if it has a meaning.
    pub fn try_get_base_representation(&self, expression: &DimensionExpression) -> (r: Result<
        BaseRepresentation,
        Fault<RegistryError>,
    >)
        ensures
            fault::outcome(r) == rules::represent(self@, *expression),
        decreases expression,
    {
        match expression {
            DimensionExpression::Unity => Ok(BaseRepresentation::unity()),
            DimensionExpression::Dimension(name) => {
                match self.registry.get_base_representation_for_name(name) {
                    Ok(d) => Ok(d),
                    Err(e) => Err(Fault::Rejected(e)),
                }
            },
            DimensionExpression::Multiply(lhs, rhs) => {
                let lhs = self.try_get_base_representation(lhs)?;
                let rhs = self.try_get_base_representation(rhs)?;
                match lhs.checked_multiply(&rhs) {
                    Some(d) => Ok(d),
                    None => Err(Fault::Undefined),
                }
            },
            DimensionExpression::Divide(lhs, rhs) => {
                let lhs = self.try_get_base_representation(lhs)?;
                let rhs = self.try_get_base_representation(rhs)?;
                match lhs.checked_divide(&rhs) {
                    Some(d) => Ok(d),
                    None => Err(Fault::Undefined),
                }
            },
            DimensionExpression::Power(base, exponent) => {
                let base = self.try_get_base_representation(base)?;
                match base.checked_power(*exponent) {
                    Some(d) => Ok(d),
                    None => Err(Fault::Undefined),
                }
            },
        }
    }

    /// What a dimension expression stands for.
    pub fn get_base_representation(&self, expression: &DimensionExpression) -> (r: Result<
        BaseRepresentation,
        RegistryError,
    >)
        requires
            fault::is_defined(rules::represent(self@, *expression)),
        ensures
            fault::verdict(r) == rules::represent(self@, *expression),
    {
        match self.try_get_base_representation(expression) {
            Ok(d) => Ok(d),
            Err(Fault::Rejected(e)) => Err(e),
            Err(Fault::Undefined) => vstd::pervasive::unreached(),
        }
    }

    /// What a name stands for.
    pub fn get_base_representation_for_name(&self, name: &String) -> (r: Result<
        BaseRepresentation,
        RegistryError,
    >)
        ensures
            match r {
                Ok(d) => self@.lookup(name@) == Ok::<Dim, RegistryErrorView>(d@),
                Err(e) => self@.lookup(name@) == Err::<Dim, RegistryErrorView>(e@),
            },
    {
        self.registry.get_base_representation_for_name(name)
    }

    /// Declares a base dimension.
    pub fn add_base_dimension(&mut self, name: &String) -> (r: Result<(), RegistryError>)
        ensures
            match r {
                Ok(_) => !old(self)@.declares(name@) && final(self)@ == old(self)@.with_base(name@),
                Err(e) => {
                    &&& old(self)@.declares(name@)
                    &&& e@ == RegistryErrorView::EntryExists(name@)
                    &&& final(self)@ == old(self)@
                },
            },
    {
        self.registry.add_base_entry(name)
    }

    /// Declares a dimension that an expression stands for, if it has a meaning.
    pub fn try_add_derived_dimension(
        &mut self,
        name: &String,
        expression: &DimensionExpression,
    ) -> (r: Result<(), Fault<RegistryError>>)
        ensures
            match rules::represent(old(self)@, *expression) {
                Ok(d) => if old(self)@.declares(name@) {
                    &&& r matches Err(f)
                    &&& f@ == Fault::Rejected(RegistryErrorView::EntryExists(name@))
                    &&& final(self)@ == old(self)@
                } else {
                    r is Ok && final(self)@ == old(self)@.with_derived(name@, d)
                },
                Err(g) => {
                    &&& r matches Err(f)
                    &&& f@ == g
                    &&& final(self)@ == old(self)@
                },
            },
    {
        let base_representation = self.try_get_base_representation(expression)?;
        match self.registry.add_derived_entry(name, base_representation) {
            Ok(_) => Ok(()),
            Err(e) => Err(Fault::Rejected(e)),
        }
    }
}

} // verus!
