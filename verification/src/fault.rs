//! What may come of a computation.

use vstd::prelude::*;

verus! {

/// Why a computation gives no result.
#[derive(Debug, PartialEq, Eq)]
pub enum Fault<E> {
    /// The input is refused, with a reason.
    Rejected(E),
    /// The input has no meaning: a number that is needed is out of range or does not exist, or a
    /// parameter of a function has no usable type annotation.
    Undefined,
}

impl<E: View> View for Fault<E> {
    type V = Fault<E::V>;

    open spec fn view(&self) -> Fault<E::V> {
        match self {
            Fault::Rejected(e) => Fault::Rejected(e@),
            Fault::Undefined => Fault::Undefined,
        }
    }
}

/// The mathematical content of a result or a fault.
pub open spec fn outcome<T: View, E: View>(r: Result<T, Fault<E>>) -> Result<T::V, Fault<E::V>> {
    match r {
        Ok(t) => Ok(t@),
        Err(f) => Err(f@),
    }
}

/// The mathematical content of a result or a reason for refusal.
pub open spec fn verdict<T: View, E: View>(r: Result<T, E>) -> Result<T::V, Fault<E::V>> {
    match r {
        Ok(t) => Ok(t@),
        Err(e) => Err(Fault::Rejected(e@)),
    }
}

/// A value if it is defined.
pub open spec fn value_if<T, E>(condition: bool, value: T) -> Result<T, Fault<E>> {
    if condition {
        Ok(value)
    } else {
        Err(Fault::Undefined)
    }
}

/// Whether an input has a meaning: it gives a value or is refused.
pub open spec fn is_defined<T, E>(r: Result<T, Fault<E>>) -> bool {
    !(r matches Err(Fault::Undefined))
}

/// A result keeps its content, a refusal its reason, and what has no meaning has none.
pub proof fn law_outcomes_are_faithful<T: View, E: View>(t: T, e: E)
    ensures
        outcome(Ok::<T, Fault<E>>(t)) == Ok::<T::V, Fault<E::V>>(t@),
        outcome(Err::<T, Fault<E>>(Fault::Rejected(e))) == Err::<T::V, Fault<E::V>>(
            Fault::Rejected(e@),
        ),
        outcome(Err::<T, Fault<E>>(Fault::Undefined)) == Err::<T::V, Fault<E::V>>(Fault::Undefined),
        Fault::Rejected(e)@ == Fault::Rejected(e@),
        Fault::<E>::Undefined@ == Fault::<E::V>::Undefined,
        verdict(Ok::<T, E>(t)) == Ok::<T::V, Fault<E::V>>(t@),
        verdict(Err::<T, E>(e)) == Err::<T::V, Fault<E::V>>(Fault::Rejected(e@)),
{
}

/// Only what has no meaning is left out.
pub proof fn law_results_and_refusals_are_defined<T, E>(r: Result<T, Fault<E>>)
    ensures
        is_defined(r) <==> r is Ok || r->Err_0 is Rejected,
{
}

} // verus!
