//! Zero-copy tensor views: a borrowed flat buffer with a shape, row-major
//! strides and bounds-checked element access.

use vstd::prelude::*;

use crate::errors::MemoryError;

verus! {

/// The product of the dimensions from position `i` on (one for an empty
/// suffix): the number of elements addressed by the trailing dimensions.
pub open spec fn suffix_product(shape: Seq<usize>, i: int) -> int
    decreases shape.len() - i,
{
    if i < 0 || i >= shape.len() {
        1
    } else {
        shape[i] * suffix_product(shape, i + 1)
    }
}

/// Dimension products are never negative.
pub proof fn lemma_suffix_product_nonneg(shape: Seq<usize>, i: int)
    ensures
        suffix_product(shape, i) >= 0,
    decreases shape.len() - i,
{
    if 0 <= i < shape.len() {
        lemma_suffix_product_nonneg(shape, i + 1);
        assert(shape[i] * suffix_product(shape, i + 1) >= 0) by (nonlinear_arith)
            requires shape[i] >= 0, suffix_product(shape, i + 1) >= 0;
    }
}

/// The flat offset addressed by the first `j` coordinates: the sum of each
/// coordinate times its stride.
pub open spec fn flat_prefix(indices: Seq<usize>, shape: Seq<usize>, j: int) -> int
    decreases j,
{
    if j <= 0 {
        0
    } else {
        flat_prefix(indices, shape, j - 1) + indices[j - 1] * suffix_product(shape, j)
    }
}

/// The flat offset of in-bounds coordinates stays below the total element
/// count: mixed-radix positions are injectively packed.
pub proof fn lemma_flat_prefix_bound(indices: Seq<usize>, shape: Seq<usize>, j: int)
    requires
        0 <= j <= shape.len(),
        indices.len() == shape.len(),
        forall|i: int| 0 <= i < j ==> (#[trigger] indices[i]) < shape[i],
    ensures
        0 <= flat_prefix(indices, shape, j)
            <= suffix_product(shape, 0) - suffix_product(shape, j),
    decreases j,
{
    lemma_suffix_product_nonneg(shape, j);
    if j > 0 {
        lemma_flat_prefix_bound(indices, shape, j - 1);
        lemma_suffix_product_nonneg(shape, j - 1);
        let c = indices[j - 1] as int;
        let s = shape[j - 1] as int;
        let p = suffix_product(shape, j);
        assert(suffix_product(shape, j - 1) == s * p);
        assert(c * p >= 0) by (nonlinear_arith)
            requires c >= 0, p >= 0;
        assert(c * p <= s * p - p) by (nonlinear_arith)
            requires c < s, p >= 0;
    }
}

/// A zero-copy view of a borrowed flat buffer as a row-major tensor.
pub struct TensorView<'a> {
    pub data: &'a [u32],
    pub shape: Vec<usize>,
    pub strides: Vec<usize>,
    pub len: usize,
}

impl<'a> TensorView<'a> {
    /// Strides are the trailing-dimension products, and the length is both
    /// the full product and the buffer length.
    pub open spec fn wf(self) -> bool {
        &&& self.strides@.len() == self.shape@.len()
        &&& forall|i: int| 0 <= i < self.shape@.len()
                ==> (#[trigger] self.strides@[i]) == suffix_product(self.shape@, i + 1)
        &&& self.len == suffix_product(self.shape@, 0)
        &&& self.len == self.data@.len()
    }

    /// View a flat buffer under a shape. Fails exactly when the product of
    /// the dimensions differs from the buffer length.
    pub fn from_slice(data: &'a [u32], shape: &[usize]) -> (r: Result<Self, MemoryError>)
        requires
            forall|i: int| 0 <= i <= shape@.len()
                ==> #[trigger] suffix_product(shape@, i) <= usize::MAX,
        ensures
            r is Ok <==> suffix_product(shape@, 0) == data@.len(),
            r is Err ==> r->Err_0 == MemoryError::ShapeMismatch,
            r is Ok ==> {
                let t = r->Ok_0;
                &&& t.wf()
                &&& t.data@ == data@
                &&& t.shape@ == shape@
                &&& t.len == data@.len()
            },
    {
        let n = shape.len();
        // compute the trailing products from the right
        let mut strides: Vec<usize> = Vec::new();
        let mut i: usize = n;
        let mut acc: usize = 1;
        proof {
            assert(suffix_product(shape@, n as int) == 1);
        }
        // build reversed, then index from the back below
        let mut rev: Vec<usize> = Vec::new();
        while i > 0
            invariant
                i <= n,
                n == shape@.len(),
                forall|k: int| 0 <= k <= shape@.len()
                    ==> #[trigger] suffix_product(shape@, k) <= usize::MAX,
                acc == suffix_product(shape@, i as int),
                rev@.len() == n - i,
                forall|k: int| 0 <= k < rev@.len()
                    ==> (#[trigger] rev@[k]) == suffix_product(shape@, n - k),
            decreases i,
        {
            rev.push(acc);
            proof {
                lemma_suffix_product_nonneg(shape@, i as int);
                assert(suffix_product(shape@, i - 1) == shape@[i - 1] * suffix_product(
                    shape@, i as int));
            }
            acc = shape[i - 1] * acc;
            i = i - 1;
        }
        let total = acc;
        if total != data.len() {
            return Err(MemoryError::ShapeMismatch);
        }
        let mut j: usize = 0;
        while j < n
            invariant
                j <= n,
                n == shape@.len(),
                rev@.len() == n,
                forall|k: int| 0 <= k < rev@.len()
                    ==> (#[trigger] rev@[k]) == suffix_product(shape@, n - k),
                strides@.len() == j,
                forall|k: int| 0 <= k < j
                    ==> (#[trigger] strides@[k]) == suffix_product(shape@, k + 1),
            decreases n - j,
        {
            let v = rev[n - 1 - j];
            strides.push(v);
            j = j + 1;
        }
        let mut shape_vec: Vec<usize> = Vec::new();
        let mut k: usize = 0;
        while k < n
            invariant
                k <= n,
                n == shape@.len(),
                shape_vec@ == shape@.take(k as int),
            decreases n - k,
        {
            let d = shape[k];
            shape_vec.push(d);
            proof {
                assert(shape_vec@ =~= shape@.take(k + 1));
            }
            k = k + 1;
        }
        proof {
            assert(shape@.take(n as int) =~= shape@);
        }
        Ok(TensorView { data, shape: shape_vec, strides, len: total })
    }

    /// The element at a multi-dimensional index. Fails with a dimension
    /// mismatch when the index has the wrong arity, and with an out-of-bounds
    /// error when a coordinate reaches past its dimension.
    pub fn get(&self, indices: &[usize]) -> (r: Result<u32, MemoryError>)
        requires
            self.wf(),
        ensures
            r is Ok <==> indices@.len() == self.shape@.len()
                && (forall|i: int| 0 <= i < indices@.len()
                    ==> (#[trigger] indices@[i]) < self.shape@[i]),
            r is Ok ==> r->Ok_0 == self.data@[flat_prefix(
                indices@, self.shape@, indices@.len() as int)],
            r == Err::<u32, MemoryError>(MemoryError::DimensionMismatch)
                <==> indices@.len() != self.shape@.len(),
            r == Err::<u32, MemoryError>(MemoryError::IndexOutOfBounds)
                <==> indices@.len() == self.shape@.len()
                    && !(forall|i: int| 0 <= i < indices@.len()
                        ==> (#[trigger] indices@[i]) < self.shape@[i]),
    {
        let n = self.shape.len();
        if indices.len() != n {
            return Err(MemoryError::DimensionMismatch);
        }
        let mut flat: usize = 0;
        let mut i: usize = 0;
        while i < n
            invariant
                i <= n,
                self.wf(),
                n == self.shape@.len(),
                indices@.len() == n,
                forall|k: int| 0 <= k < i ==> (#[trigger] indices@[k]) < self.shape@[k],
                flat == flat_prefix(indices@, self.shape@, i as int),
                flat <= suffix_product(self.shape@, 0) - suffix_product(self.shape@, i as int),
            decreases n - i,
        {
            let idx = indices[i];
            if idx >= self.shape[i] {
                proof {
                    assert(indices@[i as int] >= self.shape@[i as int]);
                }
                return Err(MemoryError::IndexOutOfBounds);
            }
            proof {
                lemma_flat_prefix_bound(indices@, self.shape@, i + 1);
                lemma_suffix_product_nonneg(self.shape@, i + 1);
                let c = indices@[i as int] as int;
                let s = self.shape@[i as int] as int;
                let p = suffix_product(self.shape@, i + 1);
                assert(c * p <= s * p - p) by (nonlinear_arith)
                    requires c < s, p >= 0;
                assert(suffix_product(self.shape@, i as int) == s * p);
            }
            flat = flat + idx * self.strides[i];
            i = i + 1;
        }
        proof {
            lemma_suffix_product_nonneg(self.shape@, n as int);
            assert(suffix_product(self.shape@, n as int) == 1);
            assert(flat < self.data@.len());
        }
        Ok(self.data[flat])
    }

    /// The tensor's shape.
    pub fn shape(&self) -> (r: &Vec<usize>)
        ensures
            r@ == self.shape@,
    {
        &self.shape
    }

    /// The tensor's row-major strides.
    pub fn strides(&self) -> (r: &Vec<usize>)
        ensures
            r@ == self.strides@,
    {
        &self.strides
    }

    /// Total number of elements.
    pub fn len(&self) -> (r: usize)
        ensures
            r == self.len,
    {
        self.len
    }

    /// Whether the tensor has no elements.
    pub fn is_empty(&self) -> (r: bool)
        ensures
            r == (self.len == 0),
    {
        self.len == 0
    }
}

} // verus!
