use vstd::prelude::*;
use crate::errors::Error;

verus! {

/// The scalar datum types a tensor buffer can be tagged with.
#[derive(Clone, Copy, Debug, PartialEq, Eq, Structural)]
pub enum DatumType {
    I32,
    I64,
}

/// The range of values a datum type admits. Every element is stored
/// widened to a machine word; the tag constrains the value.
pub open spec fn in_dt_range(dt: DatumType, v: int) -> bool {
    match dt {
        DatumType::I32 => -0x8000_0000 <= v <= 0x7fff_ffff,
        DatumType::I64 => i64::MIN <= v <= i64::MAX,
    }
}

/// The number of elements a shape describes: the product of its extents.
pub open spec fn shape_len(s: Seq<usize>) -> int
    decreases s.len(),
{
    if s.len() == 0 {
        1
    } else {
        shape_len(s.drop_last()) * s.last()
    }
}

pub proof fn lemma_shape_len_take_step(s: Seq<usize>, i: int)
    requires
        0 <= i < s.len(),
    ensures
        shape_len(s.take(i + 1)) == shape_len(s.take(i)) * s[i],
{
    assert(s.take(i + 1).drop_last() =~= s.take(i));
    assert(s.take(i + 1).last() == s[i]);
}

pub proof fn lemma_shape_len_pos(s: Seq<usize>)
    requires
        forall|j: int| 0 <= j < s.len() ==> s[j] >= 1,
    ensures
        shape_len(s) >= 1,
    decreases s.len(),
{
    if s.len() > 0 {
        lemma_shape_len_pos(s.drop_last());
        assert(shape_len(s.drop_last()) * s.last() >= 1) by (nonlinear_arith)
            requires
                s.last() >= 1,
                shape_len(s.drop_last()) >= 1,
        ;
    }
}

/// With no zero extent, the full product dominates the product of any
/// prefix.
pub proof fn lemma_shape_len_prefix_le(s: Seq<usize>, i: int)
    requires
        0 <= i <= s.len(),
        forall|j: int| 0 <= j < s.len() ==> s[j] >= 1,
    ensures
        shape_len(s.take(i)) <= shape_len(s),
        shape_len(s.take(i)) >= 1,
    decreases s.len() - i,
{
    assert(forall|j: int| 0 <= j < s.take(i).len() ==> s.take(i)[j] >= 1);
    lemma_shape_len_pos(s.take(i));
    if i == s.len() {
        assert(s.take(i) =~= s);
    } else {
        lemma_shape_len_prefix_le(s, i + 1);
        lemma_shape_len_take_step(s, i);
        assert(shape_len(s.take(i)) <= shape_len(s.take(i)) * s[i]) by (nonlinear_arith)
            requires
                s[i] >= 1,
                shape_len(s.take(i)) >= 1,
        ;
    }
}

/// A zero extent anywhere makes the element count zero.
pub proof fn lemma_shape_len_zero(s: Seq<usize>, j: int)
    requires
        0 <= j < s.len(),
        s[j] == 0,
    ensures
        shape_len(s) == 0,
    decreases s.len(),
{
    if j == s.len() - 1 {
        assert(s.last() == 0);
        assert(shape_len(s) == shape_len(s.drop_last()) * 0);
        assert(shape_len(s.drop_last()) * 0 == 0) by (nonlinear_arith);
    } else {
        lemma_shape_len_zero(s.drop_last(), j);
        assert(shape_len(s) == 0 * s.last());
        assert(0 * s.last() == 0) by (nonlinear_arith);
    }
}

/// A runtime tensor value: a flat buffer tagged with a datum type and a
/// concrete shape. Elements are stored widened to `i64`; the tag bounds
/// them.
#[derive(Clone, Debug)]
pub struct Tensor {
    pub dt: DatumType,
    pub shape: Vec<usize>,
    pub data: Vec<i64>,
}

/// The tensor invariant: the buffer holds exactly one element per point of
/// the shape, each within the tagged type's range.
pub open spec fn tensor_wf(t: Tensor) -> bool {
    &&& t.data@.len() == shape_len(t.shape@)
    &&& forall|i: int| 0 <= i < t.data@.len() ==> in_dt_range(t.dt, t.data@[i] as int)
}

/// Equality of tensor values: same tag, same shape, same buffer.
pub open spec fn tensor_feq(a: Tensor, b: Tensor) -> bool {
    a.dt == b.dt && a.shape@ == b.shape@ && a.data@ == b.data@
}

impl Tensor {
    /// Builds a tensor from its parts. `ShapeConflict` exactly when the
    /// buffer length is not the product of the extents; `TypeMismatch`
    /// exactly when some element falls outside the tagged type's range.
    pub fn from_parts(dt: DatumType, shape: Vec<usize>, data: Vec<i64>) -> (r: Result<
        Tensor,
        Error,
    >)
        ensures
            r is Ok ==> r->Ok_0 == (Tensor { dt, shape, data }) && tensor_wf(r->Ok_0),
            r == Err::<Tensor, Error>(Error::ShapeConflict) <==> shape_len(shape@)
                != data@.len(),
            r == Err::<Tensor, Error>(Error::TypeMismatch) <==> (shape_len(shape@) == data@.len()
                && exists|i: int| 0 <= i < data@.len() && !in_dt_range(dt, data@[i] as int)),
            r is Ok <==> (shape_len(shape@) == data@.len() && forall|i: int|
                0 <= i < data@.len() ==> in_dt_range(dt, data@[i] as int)),
    {
        // Any zero extent forces an element count of zero.
        let mut z: usize = 0;
        let mut has_zero = false;
        while z < shape.len()
            invariant
                0 <= z <= shape.len(),
                has_zero <==> exists|j: int| 0 <= j < z && shape@[j] == 0,
            decreases shape.len() - z,
        {
            if shape[z] == 0 {
                has_zero = true;
            }
            z = z + 1;
        }
        if has_zero {
            proof {
                let j = choose|j: int| 0 <= j < shape@.len() && shape@[j] == 0;
                lemma_shape_len_zero(shape@, j);
            }
            if data.len() != 0 {
                return Err(Error::ShapeConflict);
            }
        } else {
            let dlen = data.len();
            let mut acc: usize = 1;
            let mut i: usize = 0;
            proof {
                assert(shape@.take(0) =~= Seq::<usize>::empty());
            }
            while i < shape.len()
                invariant
                    0 <= i <= shape.len(),
                    acc == shape_len(shape@.take(i as int)),
                    dlen == data@.len(),
                    forall|j: int| 0 <= j < shape@.len() ==> shape@[j] >= 1,
                decreases shape.len() - i,
            {
                let d = shape[i];
                proof {
                    lemma_shape_len_take_step(shape@, i as int);
                }
                match acc.checked_mul(d) {
                    Some(a2) => {
                        acc = a2;
                    },
                    None => {
                        proof {
                            lemma_shape_len_prefix_le(shape@, i as int + 1);
                            assert(shape_len(shape@.take(i as int + 1)) == acc * d);
                            assert(shape_len(shape@) >= acc * d);
                            assert(acc * d > usize::MAX);
                            assert(data@.len() == dlen <= usize::MAX);
                            assert(shape_len(shape@) != data@.len());
                        }
                        return Err(Error::ShapeConflict);
                    },
                }
                i = i + 1;
            }
            proof {
                assert(shape@.take(shape@.len() as int) =~= shape@);
            }
            if acc != data.len() {
                return Err(Error::ShapeConflict);
            }
        }
        // The element count matches; check the tagged range.
        let mut k: usize = 0;
        while k < data.len()
            invariant
                0 <= k <= data.len(),
                shape_len(shape@) == data@.len(),
                forall|i: int| 0 <= i < k ==> in_dt_range(dt, data@[i] as int),
            decreases data.len() - k,
        {
            let v = data[k];
            let ok = match dt {
                DatumType::I32 => -0x8000_0000i64 <= v && v <= 0x7fff_ffffi64,
                DatumType::I64 => true,
            };
            if !ok {
                return Err(Error::TypeMismatch);
            }
            k = k + 1;
        }
        Ok(Tensor { dt, shape, data })
    }

    /// The datum type tag.
    pub fn datum_type(&self) -> (r: DatumType)
        ensures
            r == self.dt,
    {
        self.dt
    }

    /// The rank: the number of axes.
    pub fn rank(&self) -> (r: usize)
        ensures
            r == self.shape@.len(),
    {
        self.shape.len()
    }

    /// The concrete shape.
    pub fn shape_dims(&self) -> (r: &Vec<usize>)
        ensures
            r@ == self.shape@,
    {
        &self.shape
    }

    /// Extracts the buffer as `i64` elements; `TypeMismatch` exactly when
    /// the tag is not `I64`.
    pub fn take_i64s(&self) -> (r: Result<Vec<i64>, Error>)
        ensures
            self.dt == DatumType::I64 ==> (r is Ok && r->Ok_0@ == self.data@),
            self.dt != DatumType::I64 ==> r == Err::<Vec<i64>, Error>(Error::TypeMismatch),
    {
        match self.dt {
            DatumType::I64 => Ok(self.data.clone()),
            _ => Err(Error::TypeMismatch),
        }
    }

    /// Extracts the buffer as `i32` elements; `TypeMismatch` exactly when
    /// the tag is not `I32`.
    pub fn take_i32s(&self) -> (r: Result<Vec<i32>, Error>)
        requires
            tensor_wf(*self),
        ensures
            self.dt == DatumType::I32 ==> (r is Ok && r->Ok_0@.len() == self.data@.len() && forall|
                i: int,
            | 0 <= i < self.data@.len() ==> r->Ok_0@[i] as int == self.data@[i] as int),
            self.dt != DatumType::I32 ==> r == Err::<Vec<i32>, Error>(Error::TypeMismatch),
    {
        match self.dt {
            DatumType::I32 => {
                let mut out: Vec<i32> = Vec::new();
                let mut i: usize = 0;
                while i < self.data.len()
                    invariant
                        0 <= i <= self.data@.len(),
                        out@.len() == i,
                        tensor_wf(*self),
                        self.dt == DatumType::I32,
                        forall|j: int| 0 <= j < i ==> out@[j] as int == self.data@[j] as int,
                    decreases self.data@.len() - i,
                {
                    let v = self.data[i];
                    out.push(v as i32);
                    i = i + 1;
                }
                Ok(out)
            },
            _ => Err(Error::TypeMismatch),
        }
    }
    /// Decides the tensor invariant for a value of unknown provenance.
    #[verifier::loop_isolation(false)]
    pub fn check_wf(&self) -> (r: bool)
        ensures
            r == tensor_wf(*self),
    {
        let mut z: usize = 0;
        let mut has_zero = false;
        while z < self.shape.len()
            invariant
                0 <= z <= self.shape@.len(),
                has_zero <==> exists|j: int| 0 <= j < z && self.shape@[j] == 0,
            decreases self.shape@.len() - z,
        {
            if self.shape[z] == 0 {
                has_zero = true;
            }
            z = z + 1;
        }
        if has_zero {
            proof {
                let j = choose|j: int| 0 <= j < self.shape@.len() && self.shape@[j] == 0;
                lemma_shape_len_zero(self.shape@, j);
            }
            if self.data.len() != 0 {
                return false;
            }
        } else {
            let mut acc: usize = 1;
            let mut i: usize = 0;
            proof {
                assert(self.shape@.take(0) =~= Seq::<usize>::empty());
            }
            while i < self.shape.len()
                invariant
                    0 <= i <= self.shape@.len(),
                    acc == shape_len(self.shape@.take(i as int)),
                decreases self.shape@.len() - i,
            {
                let d = self.shape[i];
                proof {
                    lemma_shape_len_take_step(self.shape@, i as int);
                }
                match acc.checked_mul(d) {
                    Some(a2) => {
                        acc = a2;
                    },
                    None => {
                        proof {
                            lemma_shape_len_prefix_le(self.shape@, i as int + 1);
                            assert(shape_len(self.shape@) > usize::MAX);
                        }
                        let dl = self.data.len();
                        proof {
                            assert(dl == self.data@.len() && dl <= usize::MAX);
                            assert(!tensor_wf(*self));
                        }
                        return false;
                    },
                }
                i = i + 1;
            }
            proof {
                assert(self.shape@.take(self.shape@.len() as int) =~= self.shape@);
            }
            if acc != self.data.len() {
                return false;
            }
        }
        let mut k: usize = 0;
        while k < self.data.len()
            invariant
                0 <= k <= self.data@.len(),
                shape_len(self.shape@) == self.data@.len(),
                forall|i: int| 0 <= i < k ==> in_dt_range(self.dt, self.data@[i] as int),
            decreases self.data@.len() - k,
        {
            let v = self.data[k];
            let ok = match self.dt {
                DatumType::I32 => -0x8000_0000i64 <= v && v <= 0x7fff_ffffi64,
                DatumType::I64 => true,
            };
            if !ok {
                return false;
            }
            k = k + 1;
        }
        true
    }

    /// Duplicates the tensor as an equal value. Tensors are value types:
    /// copies are explicit, never implicit aliasing.
    pub fn dup(&self) -> (r: Tensor)
        ensures
            tensor_feq(r, *self),
            tensor_wf(*self) ==> tensor_wf(r),
    {
        Tensor { dt: self.dt, shape: self.shape.clone(), data: self.data.clone() }
    }
}

/// Compares two tensors as values.
pub fn tensor_eq(a: &Tensor, b: &Tensor) -> (r: bool)
    ensures
        r == tensor_feq(*a, *b),
{
    if !matches!((a.dt, b.dt), (DatumType::I32, DatumType::I32) | (DatumType::I64, DatumType::I64))
    {
        proof {
            assert(a.dt != b.dt);
        }
        return false;
    }
    if a.shape.len() != b.shape.len() || a.data.len() != b.data.len() {
        return false;
    }
    let mut i: usize = 0;
    while i < a.shape.len()
        invariant
            0 <= i <= a.shape@.len(),
            a.shape@.len() == b.shape@.len(),
            forall|j: int| 0 <= j < i ==> a.shape@[j] == b.shape@[j],
        decreases a.shape@.len() - i,
    {
        if a.shape[i] != b.shape[i] {
            return false;
        }
        i = i + 1;
    }
    let mut k: usize = 0;
    while k < a.data.len()
        invariant
            0 <= k <= a.data@.len(),
            a.data@.len() == b.data@.len(),
            forall|j: int| 0 <= j < k ==> a.data@[j] == b.data@[j],
        decreases a.data@.len() - k,
    {
        if a.data[k] != b.data[k] {
            return false;
        }
        k = k + 1;
    }
    proof {
        assert(a.shape@ =~= b.shape@);
        assert(a.data@ =~= b.data@);
    }
    true
}

} // verus!
