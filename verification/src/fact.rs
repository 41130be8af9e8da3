use vstd::prelude::*;
use crate::dim::{DimFact, spec_unify_dim, dim_leq};
use crate::tensor::{DatumType, Tensor, tensor_eq, tensor_feq};

verus! {

/// What shape inference knows of one slot's shape: nothing at all, or a
/// committed rank with a fact per axis. Once a rank is known it never
/// changes; only its axes are refined.
#[derive(Clone, Debug)]
pub enum ShapeFact {
    AnyRank,
    Ranked(Vec<DimFact>),
}

/// The mathematical reading of a shape fact: `None` while the rank is
/// unknown.
pub open spec fn shape_view(s: ShapeFact) -> Option<Seq<DimFact>> {
    match s {
        ShapeFact::AnyRank => None,
        ShapeFact::Ranked(v) => Some(v@),
    }
}

/// A tensor as pure data: tag, extents, buffer.
pub open spec fn tensor_view(t: Tensor) -> (DatumType, Seq<usize>, Seq<i64>) {
    (t.dt, t.shape@, t.data@)
}

/// The inferred knowledge for one tensor slot: datum type, shape, and
/// optionally a known constant value. Facts form a lattice ordered by
/// specificity; merging joins, and fails on contradiction.
#[derive(Clone, Debug)]
pub struct Fact {
    pub dt: Option<DatumType>,
    pub shape: ShapeFact,
    pub value: Option<Tensor>,
}

/// A fact as pure data.
#[verifier::ext_equal]
pub ghost struct FactView {
    pub dt: Option<DatumType>,
    pub shape: Option<Seq<DimFact>>,
    pub value: Option<(DatumType, Seq<usize>, Seq<i64>)>,
}

pub open spec fn fact_view(f: Fact) -> FactView {
    FactView {
        dt: f.dt,
        shape: shape_view(f.shape),
        value: match f.value {
            None => None,
            Some(t) => Some(tensor_view(t)),
        },
    }
}

/// Join of two per-axis fact rows; `None` is a conflict. The rank must
/// match and every axis pair must unify.
pub open spec fn spec_merge_dims(a: Seq<DimFact>, b: Seq<DimFact>) -> Option<Seq<DimFact>> {
    if a.len() == b.len() && (forall|j: int|
        0 <= j < a.len() ==> spec_unify_dim(a[j], b[j]) is Some) {
        Some(Seq::new(a.len(), |j: int| spec_unify_dim(a[j], b[j])->Some_0))
    } else {
        None
    }
}

/// Join of two optional pieces of knowledge: unknown is absorbed, two
/// known values must agree.
pub open spec fn spec_merge_opt<T>(a: Option<T>, b: Option<T>) -> Option<Option<T>> {
    match (a, b) {
        (Option::None, x) => Some(x),
        (x, Option::None) => Some(x),
        (Option::Some(x), Option::Some(y)) => if x == y {
            Some(Some(x))
        } else {
            None
        },
    }
}

/// Join of two shape facts: an unknown rank is absorbed; two known ranks
/// must be equal and unify axis by axis.
pub open spec fn spec_merge_shape(a: Option<Seq<DimFact>>, b: Option<Seq<DimFact>>) -> Option<
    Option<Seq<DimFact>>,
> {
    match (a, b) {
        (Option::None, x) => Some(x),
        (x, Option::None) => Some(x),
        (Option::Some(x), Option::Some(y)) => match spec_merge_dims(x, y) {
            Some(d) => Some(Some(d)),
            None => None,
        },
    }
}

/// The lattice join of two facts; `None` is a contradiction.
pub open spec fn spec_merge_fact(a: FactView, b: FactView) -> Option<FactView> {
    match (spec_merge_opt(a.dt, b.dt), spec_merge_shape(a.shape, b.shape), spec_merge_opt(
        a.value,
        b.value,
    )) {
        (Some(dt), Some(shape), Some(value)) => Some(FactView { dt, shape, value }),
        _ => None,
    }
}

/// The fact with no knowledge at all: bottom of the lattice.
pub open spec fn unknown_fact_view() -> FactView {
    FactView { dt: None, shape: None, value: None }
}

/// The specificity order on optional knowledge.
pub open spec fn opt_leq<T>(a: Option<T>, b: Option<T>) -> bool {
    a is None || a == b
}

/// The specificity order on shapes.
pub open spec fn shape_leq(a: Option<Seq<DimFact>>, b: Option<Seq<DimFact>>) -> bool {
    match (a, b) {
        (Option::None, _) => true,
        (Option::Some(x), Option::Some(y)) => x.len() == y.len() && (forall|j: int|
            0 <= j < x.len() ==> dim_leq(x[j], y[j])),
        _ => false,
    }
}

/// The specificity order on facts: `b` knows at least what `a` knows.
pub open spec fn fact_leq(a: FactView, b: FactView) -> bool {
    opt_leq(a.dt, b.dt) && shape_leq(a.shape, b.shape) && opt_leq(a.value, b.value)
}

impl Fact {
    /// The fact with no knowledge.
    pub fn unknown() -> (r: Fact)
        ensures
            fact_view(r) == unknown_fact_view(),
    {
        Fact { dt: None, shape: ShapeFact::AnyRank, value: None }
    }

    /// Duplicates a fact as an equal value.
    pub fn dup(&self) -> (r: Fact)
        ensures
            fact_view(r) == fact_view(*self),
    {
        let shape = shape_dup(&self.shape);
        let value = match &self.value {
            None => None,
            Some(t) => Some(t.dup()),
        };
        Fact { dt: self.dt, shape, value }
    }
}

/// Duplicates a shape fact as an equal value.
pub fn shape_dup(s: &ShapeFact) -> (r: ShapeFact)
    ensures
        shape_view(r) == shape_view(*s),
{
    let d = match s {
        ShapeFact::AnyRank => ShapeFact::AnyRank,
        ShapeFact::Ranked(v) => ShapeFact::Ranked(v.clone()),
    };
    proof {
        assert(shape_view(d) =~~= shape_view(*s));
    }
    d
}

/// Merges two shape facts; `None` exactly when the known ranks differ or
/// two fixed extents disagree.
#[verifier::loop_isolation(false)]
pub fn merge_shape_exec(a: &ShapeFact, b: &ShapeFact) -> (r: Option<ShapeFact>)
    ensures
        r is Some <==> spec_merge_shape(shape_view(*a), shape_view(*b)) is Some,
        r is Some ==> spec_merge_shape(shape_view(*a), shape_view(*b)) == Some(
            shape_view(r->Some_0),
        ),
{
    match a {
        ShapeFact::AnyRank => Some(shape_dup(b)),
        ShapeFact::Ranked(x) => match b {
            ShapeFact::AnyRank => Some(shape_dup(a)),
            ShapeFact::Ranked(y) => {
                if x.len() != y.len() {
                    return None;
                }
                let mut out: Vec<DimFact> = Vec::new();
                let mut j: usize = 0;
                while j < x.len()
                    invariant
                        0 <= j <= x@.len(),
                        x@.len() == y@.len(),
                        out@.len() == j,
                        forall|k: int|
                            0 <= k < j ==> spec_unify_dim(x@[k], y@[k]) == Some(out@[k]),
                    decreases x@.len() - j,
                {
                    match x[j].unify(y[j]) {
                        Ok(d) => out.push(d),
                        Err(_) => {
                            proof {
                                assert(spec_unify_dim(x@[j as int], y@[j as int]) is None);
                                assert(spec_merge_dims(x@, y@) is None);
                            }
                            return None;
                        },
                    }
                    j = j + 1;
                }
                proof {
                    assert(spec_merge_dims(x@, y@) is Some);
                    assert(spec_merge_dims(x@, y@)->Some_0 =~= out@);
                }
                Some(ShapeFact::Ranked(out))
            },
        },
    }
}

/// Merges two facts as a lattice join. `None` exactly when they
/// contradict: different known types, different ranks, two fixed unequal
/// extents, or two different known values.
#[verifier::loop_isolation(false)]
pub fn merge_fact(a: &Fact, b: &Fact) -> (r: Option<Fact>)
    ensures
        r is Some <==> spec_merge_fact(fact_view(*a), fact_view(*b)) is Some,
        r is Some ==> spec_merge_fact(fact_view(*a), fact_view(*b)) == Some(
            fact_view(r->Some_0),
        ),
{
    let dt: Option<DatumType> = match (&a.dt, &b.dt) {
        (None, x) => *x,
        (x, None) => *x,
        (Some(x), Some(y)) => {
            if *x == *y {
                Some(*x)
            } else {
                return None;
            }
        },
    };
    let shape: ShapeFact = match merge_shape_exec(&a.shape, &b.shape) {
        Some(s) => s,
        None => {
            return None;
        },
    };
    let value: Option<Tensor> = match (&a.value, &b.value) {
        (None, None) => None,
        (None, Some(t)) => Some(t.dup()),
        (Some(t), None) => Some(t.dup()),
        (Some(ta), Some(tb)) => {
            if tensor_eq(ta, tb) {
                Some(ta.dup())
            } else {
                return None;
            }
        },
    };
    let r = Fact { dt, shape, value };
    proof {
        assert(spec_merge_fact(fact_view(*a), fact_view(*b))->Some_0 =~~= fact_view(r));
    }
    Some(r)
}

/// Joining a fact with itself changes nothing: the merge is idempotent.
pub proof fn lemma_merge_fact_idem(a: FactView)
    ensures
        spec_merge_fact(a, a) == Some(a),
{
    if a.shape is Some {
        let x = a.shape->Some_0;
        assert(forall|j: int| 0 <= j < x.len() ==> spec_unify_dim(x[j], x[j]) == Some(x[j]));
        assert(spec_merge_dims(x, x)->Some_0 =~= x);
    }
    assert(spec_merge_fact(a, a)->Some_0 =~~= a);
}

/// Joining the unknown fact with any fact yields that fact: unknown is
/// absorbed, known information is never lost.
pub proof fn lemma_merge_fact_unknown(a: FactView)
    ensures
        spec_merge_fact(unknown_fact_view(), a) == Some(a),
        spec_merge_fact(a, unknown_fact_view()) == Some(a),
{
    assert(spec_merge_fact(unknown_fact_view(), a)->Some_0 =~~= a);
    assert(spec_merge_fact(a, unknown_fact_view())->Some_0 =~~= a);
}

/// The join does not depend on the order of its operands.
pub proof fn lemma_merge_fact_comm(a: FactView, b: FactView)
    ensures
        spec_merge_fact(a, b) == spec_merge_fact(b, a),
{
    if a.shape is Some && b.shape is Some {
        let x = a.shape->Some_0;
        let y = b.shape->Some_0;
        assert(forall|j: int|
            0 <= j < x.len() ==> spec_unify_dim(x[j], y[j]) == spec_unify_dim(y[j], x[j]));
        if spec_merge_dims(x, y) is Some {
            assert(spec_merge_dims(x, y)->Some_0 =~= spec_merge_dims(y, x)->Some_0);
        }
    }
    if spec_merge_fact(a, b) is Some {
        assert(spec_merge_fact(a, b)->Some_0 =~~= spec_merge_fact(b, a)->Some_0);
    } else {
        assert(spec_merge_fact(b, a) is None);
    }
}

/// The join is monotone: when it succeeds it is at least as specific as
/// each operand — previously known information is never retracted.
pub proof fn lemma_merge_fact_monotone(a: FactView, b: FactView)
    requires
        spec_merge_fact(a, b) is Some,
    ensures
        fact_leq(a, spec_merge_fact(a, b)->Some_0),
        fact_leq(b, spec_merge_fact(a, b)->Some_0),
{
    let m = spec_merge_fact(a, b)->Some_0;
    if a.shape is Some && b.shape is Some {
        let x = a.shape->Some_0;
        let y = b.shape->Some_0;
        assert(forall|j: int| 0 <= j < x.len() ==> #[trigger] dim_leq(
            x[j],
            spec_unify_dim(x[j], y[j])->Some_0,
        ) && dim_leq(y[j], spec_unify_dim(x[j], y[j])->Some_0)) by {
            assert forall|j: int| 0 <= j < x.len() implies #[trigger] dim_leq(
                x[j],
                spec_unify_dim(x[j], y[j])->Some_0,
            ) && dim_leq(y[j], spec_unify_dim(x[j], y[j])->Some_0) by {
                crate::dim::lemma_unify_dim_monotone(x[j], y[j]);
            }
        }
    }
}

/// Two facts whose known ranks differ contradict each other.
pub proof fn lemma_merge_fact_rank_conflict(a: FactView, b: FactView)
    requires
        a.shape is Some,
        b.shape is Some,
        a.shape->Some_0.len() != b.shape->Some_0.len(),
    ensures
        spec_merge_fact(a, b) is None,
{
}

/// Two facts with different known datum types contradict each other.
pub proof fn lemma_merge_fact_dt_conflict(a: FactView, b: FactView)
    requires
        a.dt is Some,
        b.dt is Some,
        a.dt != b.dt,
    ensures
        spec_merge_fact(a, b) is None,
{
}

/// Compares two facts as values.
pub fn fact_eq(a: &Fact, b: &Fact) -> (r: bool)
    ensures
        r == (fact_view(*a) == fact_view(*b)),
{
    let dt_ok = match (&a.dt, &b.dt) {
        (None, None) => true,
        (Some(x), Some(y)) => *x == *y,
        _ => false,
    };
    if !dt_ok {
        return false;
    }
    let shape_ok = match (&a.shape, &b.shape) {
        (ShapeFact::AnyRank, ShapeFact::AnyRank) => true,
        (ShapeFact::Ranked(x), ShapeFact::Ranked(y)) => {
            if x.len() != y.len() {
                false
            } else {
                let mut j: usize = 0;
                let mut same = true;
                while j < x.len()
                    invariant
                        0 <= j <= x@.len(),
                        x@.len() == y@.len(),
                        same <==> (forall|k: int| 0 <= k < j ==> x@[k] == y@[k]),
                    decreases x@.len() - j,
                {
                    if !(x[j] == y[j]) {
                        same = false;
                    }
                    j = j + 1;
                }
                proof {
                    if same {
                        assert(x@ =~= y@);
                    }
                }
                same
            }
        },
        _ => false,
    };
    if !shape_ok {
        proof {
            assert(fact_view(*a).shape != fact_view(*b).shape);
        }
        return false;
    }
    let value_ok = match (&a.value, &b.value) {
        (None, None) => true,
        (Some(ta), Some(tb)) => tensor_eq(ta, tb),
        _ => false,
    };
    proof {
        if dt_ok && shape_ok && value_ok {
            assert(fact_view(*a) =~~= fact_view(*b));
        }
    }
    dt_ok && shape_ok && value_ok
}

} // verus!
