use vstd::prelude::*;
use crate::errors::Error;

verus! {

/// One axis of a tensor shape as shape inference knows it: not yet known,
/// known to be the streaming axis (extent fixed only at run time), or a
/// fixed extent.
#[derive(Clone, Copy, Debug, PartialEq, Eq, Structural)]
pub enum DimFact {
    AnyDim,
    Streamed,
    Fixed(usize),
}

/// Unification of two dimension facts, as a partial join: `None` is a
/// conflict. An unknown dimension is absorbed, the streaming marker
/// absorbs a fixed extent, and two unequal fixed extents conflict.
pub open spec fn spec_unify_dim(a: DimFact, b: DimFact) -> Option<DimFact> {
    match (a, b) {
        (DimFact::AnyDim, x) => Some(x),
        (x, DimFact::AnyDim) => Some(x),
        (DimFact::Streamed, _) => Some(DimFact::Streamed),
        (_, DimFact::Streamed) => Some(DimFact::Streamed),
        (DimFact::Fixed(n), DimFact::Fixed(m)) => if n == m {
            Some(DimFact::Fixed(n))
        } else {
            None
        },
    }
}

/// The specificity order on dimension facts: `dim_leq(a, b)` says that `b`
/// carries at least the information of `a`.
pub open spec fn dim_leq(a: DimFact, b: DimFact) -> bool {
    a == DimFact::AnyDim || a == b || (a is Fixed && b == DimFact::Streamed)
}

/// Addition of two dimensions: any streaming operand makes the result
/// streaming; an unknown operand keeps it unknown; two fixed extents add,
/// with `None` when the sum does not fit the machine word.
pub open spec fn spec_dim_plus(a: DimFact, b: DimFact) -> Option<DimFact> {
    match (a, b) {
        (DimFact::Streamed, _) => Some(DimFact::Streamed),
        (_, DimFact::Streamed) => Some(DimFact::Streamed),
        (DimFact::AnyDim, _) => Some(DimFact::AnyDim),
        (_, DimFact::AnyDim) => Some(DimFact::AnyDim),
        (DimFact::Fixed(n), DimFact::Fixed(m)) => if n + m <= usize::MAX {
            Some(DimFact::Fixed((n + m) as usize))
        } else {
            None
        },
    }
}

/// Multiplication of two dimensions, with the same propagation rules as
/// addition.
pub open spec fn spec_dim_times(a: DimFact, b: DimFact) -> Option<DimFact> {
    match (a, b) {
        (DimFact::Streamed, _) => Some(DimFact::Streamed),
        (_, DimFact::Streamed) => Some(DimFact::Streamed),
        (DimFact::AnyDim, _) => Some(DimFact::AnyDim),
        (_, DimFact::AnyDim) => Some(DimFact::AnyDim),
        (DimFact::Fixed(n), DimFact::Fixed(m)) => if n * m <= usize::MAX {
            Some(DimFact::Fixed((n * m) as usize))
        } else {
            None
        },
    }
}

impl DimFact {
    /// Unifies two dimension facts; `ShapeConflict` exactly when both are
    /// fixed and unequal.
    pub fn unify(self, other: DimFact) -> (r: Result<DimFact, Error>)
        ensures
            r == (match spec_unify_dim(self, other) {
                Some(d) => Ok::<DimFact, Error>(d),
                None => Err::<DimFact, Error>(Error::ShapeConflict),
            }),
    {
        match (self, other) {
            (DimFact::AnyDim, x) => Ok(x),
            (x, DimFact::AnyDim) => Ok(x),
            (DimFact::Streamed, _) => Ok(DimFact::Streamed),
            (_, DimFact::Streamed) => Ok(DimFact::Streamed),
            (DimFact::Fixed(n), DimFact::Fixed(m)) => if n == m {
                Ok(DimFact::Fixed(n))
            } else {
                Err(Error::ShapeConflict)
            },
        }
    }

    /// Adds two dimensions; `None` when two fixed extents overflow.
    pub fn plus(self, other: DimFact) -> (r: Option<DimFact>)
        ensures
            r == spec_dim_plus(self, other),
    {
        match (self, other) {
            (DimFact::Streamed, _) => Some(DimFact::Streamed),
            (_, DimFact::Streamed) => Some(DimFact::Streamed),
            (DimFact::AnyDim, _) => Some(DimFact::AnyDim),
            (_, DimFact::AnyDim) => Some(DimFact::AnyDim),
            (DimFact::Fixed(n), DimFact::Fixed(m)) => match n.checked_add(m) {
                Some(s) => Some(DimFact::Fixed(s)),
                None => None,
            },
        }
    }

    /// Multiplies two dimensions; `None` when two fixed extents overflow.
    pub fn times(self, other: DimFact) -> (r: Option<DimFact>)
        ensures
            r == spec_dim_times(self, other),
    {
        match (self, other) {
            (DimFact::Streamed, _) => Some(DimFact::Streamed),
            (_, DimFact::Streamed) => Some(DimFact::Streamed),
            (DimFact::AnyDim, _) => Some(DimFact::AnyDim),
            (_, DimFact::AnyDim) => Some(DimFact::AnyDim),
            (DimFact::Fixed(n), DimFact::Fixed(m)) => match n.checked_mul(m) {
                Some(s) => Some(DimFact::Fixed(s)),
                None => None,
            },
        }
    }
}

/// Unification does not depend on the order of its operands.
pub proof fn lemma_unify_dim_comm(a: DimFact, b: DimFact)
    ensures
        spec_unify_dim(a, b) == spec_unify_dim(b, a),
{
}

/// Unifying a dimension fact with itself changes nothing.
pub proof fn lemma_unify_dim_idem(a: DimFact)
    ensures
        spec_unify_dim(a, a) == Some(a),
{
}

/// Unification is monotone: when it succeeds, the result is at least as
/// specific as each operand.
pub proof fn lemma_unify_dim_monotone(a: DimFact, b: DimFact)
    ensures
        spec_unify_dim(a, b) is Some ==> dim_leq(a, spec_unify_dim(a, b)->Some_0),
        spec_unify_dim(a, b) is Some ==> dim_leq(b, spec_unify_dim(a, b)->Some_0),
{
}

} // verus!
