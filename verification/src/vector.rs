use vstd::prelude::*;

use crate::errors::MatrixError;

verus! {

/// An ordered sequence of numbers supporting a dot-product reduction.
/// A vector has no identity beyond its contents.
pub struct Vector {
    pub data: Vec<i64>,
}

impl View for Vector {
    type V = Seq<i64>;

    open spec fn view(&self) -> Seq<i64> {
        self.data@
    }
}

impl Vector {
    pub fn new(data: Vec<i64>) -> (v: Vector)
        ensures
            v@ == data@,
    {
        Vector { data }
    }

    pub fn len(&self) -> (n: usize)
        ensures
            n == self@.len(),
    {
        self.data.len()
    }
}

/// The mathematical dot product of two equal-length sequences: the sum of
/// pairwise products. Splitting off the last term makes `dot` of a prefix
/// of length `k + 1` equal `dot` of the prefix of length `k` plus the `k`th
/// product, which is exactly the left-to-right accumulation order.
pub open spec fn dot(a: Seq<i64>, b: Seq<i64>) -> int
    recommends
        a.len() == b.len(),
    decreases a.len(),
{
    if a.len() == 0 {
        0
    } else {
        dot(a.drop_last(), b.drop_last()) + a.last() * b.last()
    }
}

/// Every pairwise product and every left-to-right partial sum of the dot
/// product of `a` and `b` stays within the bounds of `i64`.
pub open spec fn dot_in_range(a: Seq<i64>, b: Seq<i64>) -> bool {
    &&& forall|k: int|
        #![trigger a[k], b[k]]
        0 <= k < a.len() ==> i64::MIN <= a[k] * b[k] <= i64::MAX
    &&& forall|k: int|
        0 <= k <= a.len() ==> i64::MIN <= #[trigger] dot(a.take(k), b.take(k)) <= i64::MAX
}

/// Extending both prefixes by one index adds one pairwise product.
proof fn lemma_dot_step(a: Seq<i64>, b: Seq<i64>, i: int)
    requires
        a.len() == b.len(),
        0 <= i < a.len(),
    ensures
        dot(a.take(i + 1), b.take(i + 1)) == dot(a.take(i), b.take(i)) + a[i] * b[i],
{
    assert(a.take(i + 1).drop_last() =~= a.take(i));
    assert(b.take(i + 1).drop_last() =~= b.take(i));
    assert(a.take(i + 1).last() == a[i]);
    assert(b.take(i + 1).last() == b[i]);
}

/// Dot product of two vectors. Fails with `DimensionMismatch` when the
/// lengths differ, before any accumulation; otherwise returns the sum of
/// pairwise products, accumulated left to right from the additive identity.
/// In particular, two empty vectors give the additive identity `0`.
pub fn dot_product(a: Vector, b: Vector) -> (r: Result<i64, MatrixError>)
    requires
        a@.len() == b@.len() ==> dot_in_range(a@, b@),
    ensures
        r is Ok <==> a@.len() == b@.len(),
        r is Ok ==> r->Ok_0 == dot(a@, b@),
        r is Err ==> r->Err_0 == MatrixError::DimensionMismatch,
        a@.len() == 0 && b@.len() == 0 ==> r->Ok_0 == 0,
{
    if a.data.len() != b.data.len() {
        return Err(MatrixError::DimensionMismatch);
    }
    let n = a.data.len();
    let mut result: i64 = 0;
    let mut i: usize = 0;
    while i < n
        invariant
            n == a@.len(),
            n == b@.len(),
            i <= n,
            dot_in_range(a@, b@),
            result == dot(a@.take(i as int), b@.take(i as int)),
        decreases n - i,
    {
        proof {
            lemma_dot_step(a@, b@, i as int);
        }
        let p = a.data[i] * b.data[i];
        result = result + p;
        i = i + 1;
    }
    proof {
        assert(a@.take(n as int) =~= a@);
        assert(b@.take(n as int) =~= b@);
    }
    Ok(result)
}

} // verus!
