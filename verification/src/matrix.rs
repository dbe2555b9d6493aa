use vstd::prelude::*;

use vstd::arithmetic::div_mod::lemma_fundamental_div_mod_converse;
use vstd::arithmetic::div_mod::lemma_mod_bound;

use crate::errors::MatrixError;
use crate::vector::{dot, dot_in_range, dot_product, Vector};

verus! {

/// How many workers a `multiply` call distributes its tasks over,
/// independent of the matrix sizes.
const NUM_WORKERS: usize = 4;

/// A dense matrix: a row count, a column count and a flat row-major backing
/// store holding exactly one element per cell. Row `i` occupies
/// `data[i * cols .. (i + 1) * cols]`; column `j` is the strided subsequence
/// `data[j], data[j + cols], ...`. Never mutated by multiplication.
pub struct Matrix {
    pub rows: usize,
    pub cols: usize,
    pub data: Vec<i64>,
}

impl Matrix {
    /// The backing store holds exactly one element per cell.
    pub open spec fn wf(self) -> bool {
        self.data@.len() == self.rows * self.cols
    }

    /// Row `i` as a sequence: the contiguous row-major slice.
    pub open spec fn row_spec(self, i: int) -> Seq<i64>
        recommends
            self.wf(),
            0 <= i < self.rows,
    {
        self.data@.subrange(i * self.cols, i * self.cols + self.cols)
    }

    /// Column `j` as a sequence: the subsequence striding over `cols`.
    pub open spec fn col_spec(self, j: int) -> Seq<i64>
        recommends
            self.wf(),
            0 <= j < self.cols,
    {
        Seq::new(self.rows as nat, |t: int| self.data@[t * self.cols + j])
    }

    /// The element at row `i`, column `j` of the row-major store.
    pub open spec fn entry(self, i: int, j: int) -> i64
        recommends
            self.wf(),
            0 <= i < self.rows,
            0 <= j < self.cols,
    {
        self.data@[i * self.cols + j]
    }

    /// Builds a matrix from caller-supplied dimensions and backing data.
    /// The backing data must already hold one element per cell; this is a
    /// precondition of construction, not a runtime check.
    pub fn new(data: Vec<i64>, rows: usize, cols: usize) -> (m: Matrix)
        requires
            data@.len() == rows * cols,
        ensures
            m.rows == rows,
            m.cols == cols,
            m.data@ == data@,
            m.wf(),
    {
        Matrix { rows, cols, data }
    }

    /// Copies row `i` out of the backing store.
    pub fn row(&self, i: usize) -> (v: Vector)
        requires
            self.wf(),
            i < self.rows,
        ensures
            v@ == self.row_spec(i as int),
            v@.len() == self.cols,
    {
        let n = self.data.len();
        proof {
            assert(i * self.cols + self.cols <= self.rows * self.cols) by (nonlinear_arith)
                requires
                    i < self.rows,
            ;
        }
        let base = i * self.cols;
        let mut out: Vec<i64> = Vec::new();
        let mut k: usize = 0;
        while k < self.cols
            invariant
                self.wf(),
                i < self.rows,
                k <= self.cols,
                base == i * self.cols,
                base + self.cols <= self.data@.len(),
                n == self.data@.len(),
                out@.len() == k,
                forall|t: int| 0 <= t < k ==> out@[t] == self.data@[base + t],
            decreases self.cols - k,
        {
            out.push(self.data[base + k]);
            k = k + 1;
        }
        proof {
            assert(out@ =~= self.row_spec(i as int));
        }
        Vector::new(out)
    }

    /// Gathers column `j` by striding over the backing store.
    pub fn col(&self, j: usize) -> (v: Vector)
        requires
            self.wf(),
            j < self.cols,
        ensures
            v@ == self.col_spec(j as int),
            v@.len() == self.rows,
    {
        let n = self.data.len();
        let mut out: Vec<i64> = Vec::new();
        let mut t: usize = 0;
        while t < self.rows
            invariant
                self.wf(),
                j < self.cols,
                t <= self.rows,
                n == self.data@.len(),
                out@.len() == t,
                forall|s: int| 0 <= s < t ==> out@[s] == self.data@[s * self.cols + j],
            decreases self.rows - t,
        {
            proof {
                assert(t * self.cols + j < self.rows * self.cols) by (nonlinear_arith)
                    requires
                        t < self.rows,
                        j < self.cols,
                ;
            }
            out.push(self.data[t * self.cols + j]);
            t = t + 1;
        }
        proof {
            assert(out@ =~= self.col_spec(j as int));
        }
        Vector::new(out)
    }
}

/// One dot-product task: the row and column to reduce, and the position in
/// the row-major output buffer that the result must be written to.
pub struct MessageInput {
    pub idx: usize,
    pub row: Vector,
    pub col: Vector,
}

impl MessageInput {
    pub fn new(idx: usize, row: Vector, col: Vector) -> (m: MessageInput)
        ensures
            m.idx == idx,
            m.row == row,
            m.col == col,
    {
        MessageInput { idx, row, col }
    }
}

/// The result of one task, delivered back through the task's reply channel.
#[derive(Clone, Copy, Debug, PartialEq, Eq, Structural)]
pub struct MessageOutput {
    pub idx: usize,
    pub value: i64,
}

impl MessageOutput {
    pub fn new(idx: usize, value: i64) -> (m: MessageOutput)
        ensures
            m.idx == idx,
            m.value == value,
    {
        MessageOutput { idx, value }
    }
}

/// The work a worker does for one task: reduce the task's row and column to
/// a dot product, tagged with the task's destination index.
pub fn compute(input: MessageInput) -> (r: Result<MessageOutput, MatrixError>)
    requires
        input.row@.len() == input.col@.len() ==> dot_in_range(input.row@, input.col@),
    ensures
        r is Ok <==> input.row@.len() == input.col@.len(),
        r is Ok ==> r->Ok_0.idx == input.idx && r->Ok_0.value == dot(input.row@, input.col@),
        r is Err ==> r->Err_0 == MatrixError::DimensionMismatch,
{
    let MessageInput { idx, row, col } = input;
    match dot_product(row, col) {
        Ok(value) => Ok(MessageOutput::new(idx, value)),
        Err(e) => Err(e),
    }
}

#[verifier::external_type_specification]
#[verifier::external_body]
pub struct ExRecvError(oneshot::RecvError);

/// Relies on oneshot::channel, oneshot::Sender::send and
/// oneshot::Receiver::recv: a oneshot channel is a single-use reply slot, and
/// the one value sent into it while its receiver is alive is exactly the one
/// value that `recv` then yields.
#[verifier::external_body]
fn reply_roundtrip(out: MessageOutput) -> (r: Result<MessageOutput, oneshot::RecvError>)
    ensures
        r is Ok,
        r->Ok_0 == out,
{
    let (reply_tx, reply_rx) = oneshot::channel();
    let _ = reply_tx.send(out);
    reply_rx.recv()
}

/// The mathematical product cell for the flat row-major index `k`: the dot
/// product of row `k / b.cols` of `a` with column `k % b.cols` of `b`.
pub open spec fn cell_of(a: Matrix, b: Matrix, k: int) -> int
    recommends
        b.cols > 0,
{
    dot(a.row_spec(k / (b.cols as int)), b.col_spec(k % (b.cols as int)))
}

/// Every cell of the product of `a` and `b` can be accumulated without
/// leaving the bounds of `i64`.
pub open spec fn mul_in_range(a: Matrix, b: Matrix) -> bool {
    forall|i: int, j: int|
        0 <= i < a.rows && 0 <= j < b.cols ==> #[trigger] dot_in_range(
            a.row_spec(i),
            b.col_spec(j),
        )
}

/// `m` is the standard mathematical matrix product of `a` and `b`: its cell
/// `(i, j)` is the dot product of row `i` of `a` with column `j` of `b`.
pub open spec fn is_product(a: Matrix, b: Matrix, m: Matrix) -> bool {
    &&& m.wf()
    &&& m.rows == a.rows
    &&& m.cols == b.cols
    &&& forall|i: int, j: int|
        0 <= i < a.rows && 0 <= j < b.cols ==> #[trigger] m.entry(i, j) == dot(
            a.row_spec(i),
            b.col_spec(j),
        )
}

/// A flat row-major index decomposes into its row and column.
proof fn lemma_rowmajor_index(i: int, j: int, c: int)
    requires
        0 <= i,
        0 <= j < c,
    ensures
        (i * c + j) / c == i,
        (i * c + j) % c == j,
{
    lemma_fundamental_div_mod_converse(i * c + j, c, i, j);
}

/// The product of two matrices is determined by the two matrices alone: any
/// two results that satisfy `is_product` for the same inputs agree cell for
/// cell, whatever pool size or task-to-worker assignment produced them.
pub proof fn lemma_product_unique(a: Matrix, b: Matrix, m1: Matrix, m2: Matrix)
    requires
        is_product(a, b, m1),
        is_product(a, b, m2),
    ensures
        m1.rows == m2.rows,
        m1.cols == m2.cols,
        m1.data@ == m2.data@,
{
    let r = a.rows as int;
    let c = b.cols as int;
    assert(m1.data@.len() == r * c);
    assert(m2.data@.len() == r * c);
    assert forall|k: int| 0 <= k < r * c implies m1.data@[k] == m2.data@[k] by {
        assert(c > 0) by (nonlinear_arith)
            requires
                0 <= k < r * c,
                c >= 0,
        ;
        let i = k / c;
        let j = k % c;
        lemma_mod_bound(k, c);
        vstd::arithmetic::div_mod::lemma_fundamental_div_mod(k, c);
        assert(0 <= i < r) by (nonlinear_arith)
            requires
                0 <= k < r * c,
                c > 0,
                k == c * i + j,
                0 <= j < c,
        ;
        assert(k == i * c + j);
        assert(m1.entry(i, j) == dot(a.row_spec(i), b.col_spec(j)));
        assert(m2.entry(i, j) == dot(a.row_spec(i), b.col_spec(j)));
    }
    assert(m1.data@ =~= m2.data@);
}

/// Multiplies `a` by `b`, decomposing the output into one dot-product task
/// per cell and distributing the tasks over a pool of `workers` inboxes by
/// the rule `destination index % workers`; each task's result comes back
/// through a single-use reply channel and is written to the output buffer at
/// the task's destination index, never by arrival order. The postcondition
/// does not mention `workers`: the result is independent of the pool size,
/// because the assignment rule only decides which inbox computes a value,
/// never which value is computed for a given destination index.
pub fn multiply_with_workers(a: &Matrix, b: &Matrix, workers: usize) -> (r: Result<
    Matrix,
    MatrixError,
>)
    requires
        a.wf(),
        b.wf(),
        workers >= 1,
        a.cols == b.rows ==> a.rows * b.cols <= usize::MAX,
        a.cols == b.rows ==> mul_in_range(*a, *b),
    ensures
        r is Ok <==> a.cols == b.rows,
        r is Err ==> r->Err_0 == MatrixError::DimensionMismatch,
        r is Ok ==> is_product(*a, *b, r->Ok_0),
{
    if a.cols != b.rows {
        return Err(MatrixError::DimensionMismatch);
    }
    let rows = a.rows;
    let cols = b.cols;
    let total = rows * cols;
    let mut data: Vec<i64> = Vec::new();
    while data.len() < total
        invariant
            data@.len() <= total,
            forall|t: int| 0 <= t < data@.len() ==> data@[t] == 0i64,
        decreases total - data@.len(),
    {
        data.push(0);
    }
    let ghost wi = workers as int;
    let mut w: usize = 0;
    while w < workers
        invariant
            a.wf(),
            b.wf(),
            a.cols == b.rows,
            mul_in_range(*a, *b),
            rows == a.rows,
            cols == b.cols,
            total == rows * cols,
            wi == workers as int,
            workers >= 1,
            w <= workers,
            data@.len() == total,
            forall|k: int|
                0 <= k < total ==> #[trigger] data@[k] == (if k % wi < w {
                    cell_of(*a, *b, k)
                } else {
                    0
                }),
        decreases workers - w,
    {
        let mut i: usize = 0;
        while i < rows
            invariant
                a.wf(),
                b.wf(),
                a.cols == b.rows,
                mul_in_range(*a, *b),
                rows == a.rows,
                cols == b.cols,
                total == rows * cols,
                wi == workers as int,
                workers >= 1,
                w < workers,
                i <= rows,
                data@.len() == total,
                forall|k: int|
                    0 <= k < total ==> #[trigger] data@[k] == (if k % wi < w || (k % wi == w && k
                        < i * cols) {
                        cell_of(*a, *b, k)
                    } else {
                        0
                    }),
            decreases rows - i,
        {
            let mut j: usize = 0;
            while j < cols
                invariant
                    a.wf(),
                    b.wf(),
                    a.cols == b.rows,
                    mul_in_range(*a, *b),
                    rows == a.rows,
                    cols == b.cols,
                    total == rows * cols,
                    wi == workers as int,
                    workers >= 1,
                    w < workers,
                    i < rows,
                    j <= cols,
                    data@.len() == total,
                    forall|k: int|
                        0 <= k < total ==> #[trigger] data@[k] == (if k % wi < w || (k % wi == w
                            && k < i * cols + j) {
                            cell_of(*a, *b, k)
                        } else {
                            0
                        }),
                decreases cols - j,
            {
                proof {
                    assert(i * cols + j < total) by (nonlinear_arith)
                        requires
                            i < rows,
                            j < cols,
                            total == rows * cols,
                    ;
                }
                let k = i * cols + j;
                if k % workers == w {
                    let input = MessageInput::new(k, a.row(i), b.col(j));
                    let computed = match compute(input) {
                        Ok(o) => o,
                        Err(e) => {
                            return Err(e);
                        },
                    };
                    let out = match reply_roundtrip(computed) {
                        Ok(o) => o,
                        Err(_) => {
                            return Err(MatrixError::WorkerFailure);
                        },
                    };
                    data[out.idx] = out.value;
                    proof {
                        lemma_rowmajor_index(i as int, j as int, cols as int);
                        assert(cell_of(*a, *b, k as int) == dot(
                            a.row_spec(i as int),
                            b.col_spec(j as int),
                        ));
                    }
                }
                j = j + 1;
            }
            i = i + 1;
            proof {
                assert((i as int) * cols == (i as int - 1) * cols + cols) by (nonlinear_arith);
            }
        }
        w = w + 1;
    }
    let m = Matrix::new(data, rows, cols);
    proof {
        assert forall|i: int, j: int|
            0 <= i < a.rows && 0 <= j < b.cols implies #[trigger] m.entry(i, j) == dot(
            a.row_spec(i),
            b.col_spec(j),
        ) by {
            assert(0 <= i * (cols as int) + j < total) by (nonlinear_arith)
                requires
                    0 <= i < rows,
                    0 <= j < cols,
                    total == rows * cols,
            ;
            lemma_rowmajor_index(i, j, cols as int);
            lemma_mod_bound(i * (cols as int) + j, wi);
            assert(data@[i * (cols as int) + j] == cell_of(*a, *b, i * (cols as int) + j));
        }
    }
    Ok(m)
}

/// Multiplies two matrices over the fixed-size worker pool. Fails with
/// `DimensionMismatch`, dispatching no task, when the inner dimensions
/// disagree; otherwise returns the standard mathematical matrix product.
pub fn multiply(a: &Matrix, b: &Matrix) -> (r: Result<Matrix, MatrixError>)
    requires
        a.wf(),
        b.wf(),
        a.cols == b.rows ==> a.rows * b.cols <= usize::MAX,
        a.cols == b.rows ==> mul_in_range(*a, *b),
    ensures
        r is Ok <==> a.cols == b.rows,
        r is Err ==> r->Err_0 == MatrixError::DimensionMismatch,
        r is Ok ==> is_product(*a, *b, r->Ok_0),
{
    multiply_with_workers(a, b, NUM_WORKERS)
}

/// The value that collecting the replies `outs` leaves at destination `d` of
/// a zero-initialised output buffer: the value of the latest reply addressed
/// to `d`, or `0` when no reply is.
pub open spec fn assembled(outs: Seq<Option<MessageOutput>>, d: int) -> int
    decreases outs.len(),
{
    if outs.len() == 0 {
        0
    } else {
        match outs.last() {
            Some(o) => if o.idx == d {
                o.value as int
            } else {
                assembled(outs.drop_last(), d)
            },
            None => assembled(outs.drop_last(), d),
        }
    }
}

/// The collection step of a multiplication: writes each reply's value into a
/// zero-initialised `rows` by `cols` buffer at the reply's destination index,
/// never by arrival order. A missing reply (`None`: its channel closed
/// without a value) is a `WorkerFailure` for the whole matrix; a partial
/// result is never returned.
pub fn assemble(outputs: &Vec<Option<MessageOutput>>, rows: usize, cols: usize) -> (r: Result<
    Matrix,
    MatrixError,
>)
    requires
        rows * cols <= usize::MAX,
        forall|p: int|
            0 <= p < outputs@.len() ==> ((#[trigger] outputs@[p]) matches Some(o) ==> o.idx < rows
                * cols),
    ensures
        r is Ok <==> (forall|p: int| 0 <= p < outputs@.len() ==> (#[trigger] outputs@[p]) is Some),
        r is Err ==> r->Err_0 == MatrixError::WorkerFailure,
        r is Ok ==> r->Ok_0.rows == rows && r->Ok_0.cols == cols && r->Ok_0.wf(),
        r is Ok ==> forall|d: int|
            0 <= d < rows * cols ==> r->Ok_0.data@[d] == assembled(outputs@, d),
{
    let total = rows * cols;
    let mut data: Vec<i64> = Vec::new();
    while data.len() < total
        invariant
            data@.len() <= total,
            forall|t: int| 0 <= t < data@.len() ==> data@[t] == 0i64,
        decreases total - data@.len(),
    {
        data.push(0);
    }
    proof {
        assert(outputs@.take(0) =~= Seq::<Option<MessageOutput>>::empty());
    }
    let mut p: usize = 0;
    while p < outputs.len()
        invariant
            total == rows * cols,
            data@.len() == total,
            p <= outputs@.len(),
            forall|q: int|
                0 <= q < outputs@.len() ==> ((#[trigger] outputs@[q]) matches Some(o) ==> o.idx
                    < total),
            forall|q: int| 0 <= q < p ==> (#[trigger] outputs@[q]) is Some,
            forall|d: int| 0 <= d < total ==> #[trigger] data@[d] == assembled(
                outputs@.take(p as int),
                d,
            ),
        decreases outputs@.len() - p,
    {
        match &outputs[p] {
            Some(o) => {
                data[o.idx] = o.value;
            },
            None => {
                return Err(MatrixError::WorkerFailure);
            },
        }
        p = p + 1;
        proof {
            assert(outputs@.take(p as int).drop_last() =~= outputs@.take(p as int - 1));
            assert(outputs@.take(p as int).last() == outputs@[p as int - 1]);
        }
    }
    proof {
        assert(outputs@.take(outputs@.len() as int) =~= outputs@);
    }
    Ok(Matrix::new(data, rows, cols))
}

} // verus!
