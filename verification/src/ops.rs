use vstd::prelude::*;
use crate::dim::DimFact;
use crate::errors::Error;
use crate::fact::{
    Fact, FactView, ShapeFact, fact_view, merge_shape_exec, shape_dup, spec_merge_opt,
    spec_merge_shape, tensor_view, unknown_fact_view,
};
use crate::tensor::{DatumType, Tensor, in_dt_range, tensor_wf};

verus! {

/// The closed registry of operator kinds, each carrying its attributes.
/// `Source` is a placeholder whose value the caller supplies; `Const`
/// yields a fixed tensor; `AddConst` adds a constant to every element;
/// `AddPair` adds two tensors elementwise.
#[derive(Debug)]
pub enum OpKind {
    Source,
    Const(Tensor),
    AddConst(i64),
    AddPair,
}

/// The number of graph inputs an operator declares.
pub open spec fn op_in_arity(op: OpKind) -> int {
    match op {
        OpKind::Source => 0,
        OpKind::Const(_) => 0,
        OpKind::AddConst(_) => 1,
        OpKind::AddPair => 2,
    }
}

/// Every operator here produces one output slot.
pub open spec fn op_out_arity(op: OpKind) -> int {
    1
}

/// The fully known per-axis facts of a concrete shape.
pub open spec fn dims_of_shape(s: Seq<usize>) -> Seq<DimFact> {
    Seq::new(s.len(), |i: int| DimFact::Fixed(s[i]))
}

/// A tensor as pure data.
pub type TensorData = (DatumType, Seq<usize>, Seq<i64>);

/// Shape/type inference for one operator: from the facts of its inputs to
/// the most specific fact it can state for its output. `Unsupported` when
/// the arity is not the operator's; conflicts between two known input
/// facts of `AddPair` surface as `TypeMismatch` or `ShapeConflict`.
pub open spec fn spec_infer(op: OpKind, ins: Seq<FactView>) -> Result<FactView, Error> {
    if ins.len() != op_in_arity(op) {
        Err(Error::Unsupported)
    } else {
        match op {
            OpKind::Source => Ok(unknown_fact_view()),
            OpKind::Const(t) => Ok(
                FactView {
                    dt: Some(t.dt),
                    shape: Some(dims_of_shape(t.shape@)),
                    value: Some(tensor_view(t)),
                },
            ),
            OpKind::AddConst(_) => Ok(FactView { dt: ins[0].dt, shape: ins[0].shape, value: None }),
            OpKind::AddPair => match spec_merge_opt(ins[0].dt, ins[1].dt) {
                None => Err(Error::TypeMismatch),
                Some(dt) => match spec_merge_shape(ins[0].shape, ins[1].shape) {
                    None => Err(Error::ShapeConflict),
                    Some(shape) => Ok(FactView { dt, shape, value: None }),
                },
            },
        }
    }
}

/// Evaluation of one operator on concrete input data. `EvalError` covers a
/// wrong input count, a placeholder that was never fed, an elementwise
/// result outside the tagged range, and mismatched `AddPair` shapes;
/// `TypeMismatch` covers mismatched `AddPair` tags.
pub open spec fn spec_eval(op: OpKind, ins: Seq<TensorData>) -> Result<TensorData, Error> {
    if ins.len() != op_in_arity(op) {
        Err(Error::EvalError)
    } else {
        match op {
            OpKind::Source => Err(Error::EvalError),
            OpKind::Const(t) => Ok(tensor_view(t)),
            OpKind::AddConst(c) => {
                let (dt, sh, d) = ins[0];
                if forall|i: int| 0 <= i < d.len() ==> in_dt_range(dt, d[i] + c) {
                    Ok((dt, sh, Seq::new(d.len(), |i: int| (d[i] + c) as i64)))
                } else {
                    Err(Error::EvalError)
                }
            },
            OpKind::AddPair => {
                let (dta, sha, da) = ins[0];
                let (dtb, shb, db) = ins[1];
                if dta != dtb {
                    Err(Error::TypeMismatch)
                } else if sha != shb || da.len() != db.len() {
                    Err(Error::EvalError)
                } else if forall|i: int| 0 <= i < da.len() ==> in_dt_range(dta, da[i] + db[i]) {
                    Ok((dta, sha, Seq::new(da.len(), |i: int| (da[i] + db[i]) as i64)))
                } else {
                    Err(Error::EvalError)
                }
            },
        }
    }
}

/// The views of a row of facts.
pub open spec fn fact_views(s: Seq<Fact>) -> Seq<FactView> {
    Seq::new(s.len(), |i: int| fact_view(s[i]))
}

/// The views of a row of tensors.
pub open spec fn tensor_views(s: Seq<Tensor>) -> Seq<TensorData> {
    Seq::new(s.len(), |i: int| tensor_view(s[i]))
}

impl OpKind {
    /// The number of graph inputs this operator declares.
    pub fn in_arity(&self) -> (r: usize)
        ensures
            r == op_in_arity(*self),
    {
        match self {
            OpKind::Source => 0,
            OpKind::Const(_) => 0,
            OpKind::AddConst(_) => 1,
            OpKind::AddPair => 2,
        }
    }

    /// The number of output slots this operator declares.
    pub fn out_arity(&self) -> (r: usize)
        ensures
            r == op_out_arity(*self),
    {
        1
    }

    /// Runs this operator's shape/type inference on its input facts.
    #[verifier::loop_isolation(false)]
    pub fn infer(&self, ins: &Vec<Fact>) -> (r: Result<Fact, Error>)
        ensures
            r is Ok ==> spec_infer(*self, fact_views(ins@)) == Ok::<FactView, Error>(
                fact_view(r->Ok_0),
            ),
            r is Err ==> spec_infer(*self, fact_views(ins@)) == Err::<FactView, Error>(r->Err_0),
    {
        if ins.len() != self.in_arity() {
            return Err(Error::Unsupported);
        }
        match self {
            OpKind::Source => Ok(Fact::unknown()),
            OpKind::Const(t) => {
                let mut dims: Vec<DimFact> = Vec::new();
                let mut i: usize = 0;
                while i < t.shape.len()
                    invariant
                        0 <= i <= t.shape@.len(),
                        dims@.len() == i,
                        forall|k: int| 0 <= k < i ==> dims@[k] == DimFact::Fixed(t.shape@[k]),
                    decreases t.shape@.len() - i,
                {
                    dims.push(DimFact::Fixed(t.shape[i]));
                    i = i + 1;
                }
                proof {
                    assert(dims@ =~= dims_of_shape(t.shape@));
                }
                Ok(Fact { dt: Some(t.dt), shape: ShapeFact::Ranked(dims), value: Some(t.dup()) })
            },
            OpKind::AddConst(_) => {
                let f0 = &ins[0];
                Ok(Fact { dt: f0.dt, shape: shape_dup(&f0.shape), value: None })
            },
            OpKind::AddPair => {
                let f0 = &ins[0];
                let f1 = &ins[1];
                let dt: Option<DatumType> = match (&f0.dt, &f1.dt) {
                    (None, x) => *x,
                    (x, None) => *x,
                    (Some(x), Some(y)) => {
                        if *x == *y {
                            Some(*x)
                        } else {
                            return Err(Error::TypeMismatch);
                        }
                    },
                };
                match merge_shape_exec(&f0.shape, &f1.shape) {
                    Some(shape) => Ok(Fact { dt, shape, value: None }),
                    None => Err(Error::ShapeConflict),
                }
            },
        }
    }

    /// Evaluates this operator on concrete input tensors.
    #[verifier::loop_isolation(false)]
    pub fn eval(&self, ins: &Vec<Tensor>) -> (r: Result<Tensor, Error>)
        requires
            op_wf(*self),
            forall|i: int| 0 <= i < ins@.len() ==> tensor_wf(ins@[i]),
        ensures
            r is Ok ==> spec_eval(*self, tensor_views(ins@)) == Ok::<TensorData, Error>(
                tensor_view(r->Ok_0),
            ) && tensor_wf(r->Ok_0),
            r is Err ==> spec_eval(*self, tensor_views(ins@)) == Err::<TensorData, Error>(
                r->Err_0,
            ),
    {
        if ins.len() != self.in_arity() {
            return Err(Error::EvalError);
        }
        match self {
            OpKind::Source => Err(Error::EvalError),
            OpKind::Const(t) => Ok(t.dup()),
            OpKind::AddConst(c) => {
                let cc: i64 = *c;
                let t0 = &ins[0];
                let mut data: Vec<i64> = Vec::new();
                let mut i: usize = 0;
                while i < t0.data.len()
                    invariant
                        0 <= i <= t0.data@.len(),
                        data@.len() == i,
                        forall|k: int| 0 <= k < i ==> in_dt_range(t0.dt, t0.data@[k] + cc),
                        forall|k: int| 0 <= k < i ==> data@[k] == t0.data@[k] + cc,
                    decreases t0.data@.len() - i,
                {
                    let v = t0.data[i];
                    let s = match v.checked_add(cc) {
                        Some(s) => s,
                        None => {
                            return Err(Error::EvalError);
                        },
                    };
                    let ok = match t0.dt {
                        DatumType::I32 => -0x8000_0000i64 <= s && s <= 0x7fff_ffffi64,
                        DatumType::I64 => true,
                    };
                    if !ok {
                        return Err(Error::EvalError);
                    }
                    proof {
                        assert(v == t0.data@[i as int]);
                        assert(s == t0.data@[i as int] + cc);
                        assert(in_dt_range(t0.dt, t0.data@[i as int] + cc));
                    }
                    data.push(s);
                    i = i + 1;
                }
                let out = Tensor { dt: t0.dt, shape: t0.shape.clone(), data };
                proof {
                    assert(tensor_views(ins@)[0] == tensor_view(ins@[0]));
                    assert(cc == *c);
                    assert(forall|k: int|
                        0 <= k < t0.data@.len() ==> in_dt_range(t0.dt, t0.data@[k] + cc));
                    assert(spec_eval(*self, tensor_views(ins@)) is Ok);
                    let exp = spec_eval(*self, tensor_views(ins@))->Ok_0;
                    assert(out.data@ =~= exp.2);
                    assert(out.shape@ =~= exp.1);
                }
                Ok(out)
            },
            OpKind::AddPair => {
                let ta = &ins[0];
                let tb = &ins[1];
                if !(match (ta.dt, tb.dt) {
                    (DatumType::I32, DatumType::I32) => true,
                    (DatumType::I64, DatumType::I64) => true,
                    _ => false,
                }) {
                    return Err(Error::TypeMismatch);
                }
                let mut j: usize = 0;
                if ta.shape.len() != tb.shape.len() {
                    return Err(Error::EvalError);
                }
                while j < ta.shape.len()
                    invariant
                        0 <= j <= ta.shape@.len(),
                        ta.shape@.len() == tb.shape@.len(),
                        forall|k: int| 0 <= k < j ==> ta.shape@[k] == tb.shape@[k],
                    decreases ta.shape@.len() - j,
                {
                    if ta.shape[j] != tb.shape[j] {
                        return Err(Error::EvalError);
                    }
                    j = j + 1;
                }
                proof {
                    assert(ta.shape@ =~= tb.shape@);
                }
                if ta.data.len() != tb.data.len() {
                    return Err(Error::EvalError);
                }
                let mut data: Vec<i64> = Vec::new();
                let mut i: usize = 0;
                while i < ta.data.len()
                    invariant
                        0 <= i <= ta.data@.len(),
                        ta.data@.len() == tb.data@.len(),
                        data@.len() == i,
                        forall|k: int|
                            0 <= k < i ==> in_dt_range(ta.dt, ta.data@[k] + tb.data@[k]),
                        forall|k: int| 0 <= k < i ==> data@[k] == ta.data@[k] + tb.data@[k],
                    decreases ta.data@.len() - i,
                {
                    let s = match ta.data[i].checked_add(tb.data[i]) {
                        Some(s) => s,
                        None => {
                            return Err(Error::EvalError);
                        },
                    };
                    let ok = match ta.dt {
                        DatumType::I32 => -0x8000_0000i64 <= s && s <= 0x7fff_ffffi64,
                        DatumType::I64 => true,
                    };
                    if !ok {
                        return Err(Error::EvalError);
                    }
                    data.push(s);
                    i = i + 1;
                }
                let out = Tensor { dt: ta.dt, shape: ta.shape.clone(), data };
                proof {
                    assert(tensor_views(ins@)[0] == tensor_view(ins@[0]));
                    assert(tensor_views(ins@)[1] == tensor_view(ins@[1]));
                    assert(spec_eval(*self, tensor_views(ins@)) is Ok);
                    let exp = spec_eval(*self, tensor_views(ins@))->Ok_0;
                    assert(out.data@ =~= exp.2);
                    assert(out.shape@ =~= exp.1);
                }
                Ok(out)
            },
        }
    }

    /// Whether this operator can take part in a streaming chain: one
    /// input, and each output element depends only on the input element at
    /// the same position.
    pub fn is_elementwise(&self) -> (r: bool)
        ensures
            r == op_is_elementwise(*self),
    {
        match self {
            OpKind::AddConst(_) => true,
            _ => false,
        }
    }
}

/// An operator's own invariant: a constant operator carries a
/// well-formed tensor.
pub open spec fn op_wf(op: OpKind) -> bool {
    match op {
        OpKind::Const(t) => tensor_wf(t),
        _ => true,
    }
}

/// The operators whose evaluation is an independent function of each
/// element, so chunking the streaming axis cannot change the result.
pub open spec fn op_is_elementwise(op: OpKind) -> bool {
    op is AddConst
}

/// Equality of operators as values: same kind, same attributes, and for a
/// constant operator the same tensor value.
pub open spec fn op_feq(a: OpKind, b: OpKind) -> bool {
    match (a, b) {
        (OpKind::Source, OpKind::Source) => true,
        (OpKind::Const(x), OpKind::Const(y)) => crate::tensor::tensor_feq(x, y),
        (OpKind::AddConst(x), OpKind::AddConst(y)) => x == y,
        (OpKind::AddPair, OpKind::AddPair) => true,
        _ => false,
    }
}

/// Equal operator values agree on arity, well-formedness, and the
/// elementwise property.
pub proof fn lemma_op_feq_props(a: OpKind, b: OpKind)
    requires
        op_feq(a, b),
    ensures
        op_in_arity(a) == op_in_arity(b),
        op_out_arity(a) == op_out_arity(b),
        op_wf(a) == op_wf(b),
        op_is_elementwise(a) == op_is_elementwise(b),
{
}

/// Duplicates an operator as an equal value.
pub fn op_dup(op: &OpKind) -> (r: OpKind)
    ensures
        op_feq(r, *op),
{
    match op {
        OpKind::Source => OpKind::Source,
        OpKind::Const(t) => OpKind::Const(t.dup()),
        OpKind::AddConst(c) => OpKind::AddConst(*c),
        OpKind::AddPair => OpKind::AddPair,
    }
}

} // verus!
