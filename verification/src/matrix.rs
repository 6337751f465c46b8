use vstd::arithmetic::div_mod::lemma_fundamental_div_mod;
use vstd::arithmetic::div_mod::lemma_fundamental_div_mod_converse;
use vstd::arithmetic::div_mod::lemma_mod_bound;
use vstd::arithmetic::mul::lemma_mul_inequality;
use vstd::pervasive::VecAdditionalExecFns;
use vstd::prelude::*;

use crate::pool::cell_dot;
use crate::pool::job_ok;
use crate::pool::run_worker;
use crate::pool::worker_jobs;
use crate::pool::JobResult;
use crate::vector::dot;
use crate::vector::dot_fits;

verus! {

/// How many long-lived workers a plain `multiply` call uses.  Fixed at pool
/// construction; no dynamic rebalancing.
pub const WORKER_COUNT: usize = 4;

/// A dense, row-major 2D integer container.  Immutable after construction:
/// multiplication produces a new matrix and never mutates its operands.
pub struct Matrix {
    /// Cell values in row-major order; `data.len() == row * col` always.
    pub data: Vec<i64>,
    /// Number of rows.
    pub row: usize,
    /// Number of columns.
    pub col: usize,
}

/// The two error kinds a multiplication can surface.
#[derive(Clone, Copy, Debug, PartialEq, Eq, Structural)]
pub enum MatrixError {
    /// The operands' shapes are incompatible: `a.col != b.row`.  Detected
    /// before any work is dispatched; no partial work is done.
    ShapeMismatch,
    /// A worker terminated without delivering the result of one of its
    /// jobs.  Fatal for the whole multiplication: a partial numeric result
    /// is worse than no result.
    ChannelClosed,
}

impl Matrix {
    /// The structural invariant: the backing buffer holds exactly one value
    /// per cell.
    pub open spec fn wf(self) -> bool {
        self.data@.len() == self.row * self.col
    }

    /// The cell at row `i`, column `j`.
    pub open spec fn entry(self, i: int, j: int) -> i64 {
        self.data@[i * self.col + j]
    }

    /// Row `i` as a sequence: one contiguous slice of the backing buffer.
    pub open spec fn row_seq(self, i: int) -> Seq<i64> {
        self.data@.subrange(i * self.col, i * self.col + self.col)
    }

    /// Column `j` as a sequence: the strided extraction of every `col`-th
    /// element starting at offset `j`.
    pub open spec fn col_seq(self, j: int) -> Seq<i64> {
        Seq::new(self.row as nat, |k: int| self.data@[k * self.col + j])
    }

    /// Stores the buffer as given.  The caller owes a buffer of exactly
    /// `row * col` values; a shorter one would make later cell reads read
    /// out of bounds.
    pub fn new(data: Vec<i64>, row: usize, col: usize) -> (m: Matrix)
        requires
            data@.len() == row * col,
        ensures
            m.data@ == data@,
            m.row == row,
            m.col == col,
            m.wf(),
    {
        Matrix { data, row, col }
    }
}

/// The shapes allow multiplication: inner dimensions agree.
pub open spec fn compatible(a: Matrix, b: Matrix) -> bool {
    a.col == b.row
}

/// Every row-by-column dot product of the pair stays within `i64` at every
/// intermediate step: the machine-level condition for an exact product.
pub open spec fn mul_fits(a: Matrix, b: Matrix) -> bool {
    forall|i: int, j: int|
        0 <= i < a.row && 0 <= j < b.col ==> #[trigger] dot_fits(a.row_seq(i), b.col_seq(j))
}

/// `c` is the exact matrix product of `a` and `b`: the shape follows the
/// operands and every cell is the dot product of its row of `a` and its
/// column of `b`.
pub open spec fn is_product(a: Matrix, b: Matrix, c: Matrix) -> bool {
    &&& c.wf()
    &&& c.row == a.row
    &&& c.col == b.col
    &&& forall|i: int, j: int|
        0 <= i < a.row && 0 <= j < b.col ==> #[trigger] c.entry(i, j) == dot(
            a.row_seq(i),
            b.col_seq(j),
        )
}

/// The product is unique: any two matrices that both satisfy `is_product`
/// for the same operands agree cell for cell.  Running the multiplication
/// again, or with a different worker count, can therefore never change the
/// numeric result.
pub proof fn lemma_product_unique(a: Matrix, b: Matrix, c1: Matrix, c2: Matrix)
    requires
        compatible(a, b),
        is_product(a, b, c1),
        is_product(a, b, c2),
    ensures
        c1.row == c2.row,
        c1.col == c2.col,
        c1.data@ == c2.data@,
{
    assert forall|t: int| 0 <= t < c1.data@.len() implies c1.data@[t] == c2.data@[t] by {
        let cw = c1.col as int;
        if cw > 0 {
            let i = t / cw;
            let j = t % cw;
            vstd::arithmetic::div_mod::lemma_fundamental_div_mod(t, cw);
            vstd::arithmetic::div_mod::lemma_mod_bound(t, cw);
            vstd::arithmetic::div_mod::lemma_div_pos_is_pos(t, cw);
            assert(i < c1.row) by {
                if i >= c1.row {
                    vstd::arithmetic::mul::lemma_mul_inequality(c1.row as int, i, cw);
                    assert(t >= c1.row * cw + j);
                }
            }
            assert(c1.entry(i, j) == dot(a.row_seq(i), b.col_seq(j)));
            assert(c2.entry(i, j) == dot(a.row_seq(i), b.col_seq(j)));
            assert(i * cw + j == t);
        } else {
            assert(c1.data@.len() == c1.row * 0) by {
                assert(c1.wf());
            }
            assert(c1.row * 0 == 0) by (nonlinear_arith);
        }
    }
    assert(c1.data@ =~= c2.data@);
}

/// Everything a finished worker can have handed back: one result per job of
/// worker `w`'s queue, in queue order, each carrying its own output index
/// (`q * n + w` for the `q`-th job) and the exact dot product owed at that
/// index; and the queue was long enough to cover every index of `w`'s
/// residue class.
pub open spec fn worker_output_ok(a: Matrix, b: Matrix, w: int, n: int, out: Seq<JobResult>) -> bool {
    &&& forall|q: int| 0 <= q < out.len() ==> (#[trigger] out[q]).idx == q * n + w
    &&& forall|q: int| 0 <= q < out.len() ==> (#[trigger] out[q]).idx < a.row * b.col
    &&& forall|q: int|
        0 <= q < out.len() ==> (#[trigger] out[q]).value == cell_dot(a, b, out[q].idx as int)
    &&& out.len() * n + w >= a.row * b.col
}

/// Multiplies `a` by `b` on a pool of `n` workers.
///
/// Validates the shapes first: on `a.col != b.row` it fails with
/// `ShapeMismatch` before any work is dispatched.  Otherwise one
/// dot-product job exists per output cell; worker `w` services exactly the
/// output indices congruent to `w` modulo `n`, draining its private queue
/// in order; the orchestrator writes each result at its own index of the
/// output buffer.  A successful result is the exact product: the worker
/// count and the order results arrive in can only affect performance,
/// never the value of any cell.
pub fn multiply_with_workers(a: &Matrix, b: &Matrix, n: usize) -> (r: Result<Matrix, MatrixError>)
    requires
        a.wf(),
        b.wf(),
        0 < n,
        compatible(*a, *b) ==> mul_fits(*a, *b) && a.row * b.col <= usize::MAX,
    ensures
        !compatible(*a, *b) <==> r == Err::<Matrix, MatrixError>(MatrixError::ShapeMismatch),
        r matches Ok(c) ==> is_product(*a, *b, c),
        compatible(*a, *b) ==> r is Ok,
{
    if a.col != b.row {
        return Err(MatrixError::ShapeMismatch);
    }
    let total: usize = a.row * b.col;

    // The output buffer, pre-sized and pre-filled with the additive
    // identity.
    let mut data: Vec<i64> = Vec::new();
    while data.len() < total
        invariant
            data@.len() <= total,
        decreases total - data@.len(),
    {
        data.push(0i64);
    }

    // Dispatch, await, assemble: each worker drains its private queue, and
    // every result is written at its own output index.
    let mut w: usize = 0;
    while w < n
        invariant
            a.wf(),
            b.wf(),
            compatible(*a, *b),
            mul_fits(*a, *b),
            0 < n,
            w <= n,
            total == a.row * b.col,
            total <= usize::MAX,
            data@.len() == total,
            forall|t: int|
                0 <= t < total && #[trigger] (t % (n as int)) < w ==> data@[t] == cell_dot(
                    *a,
                    *b,
                    t,
                ),
        decreases n - w,
    {
        let jobs = worker_jobs(a, b, w, n);
        let out = run_worker(&jobs);
        proof {
            assert forall|q: int| 0 <= q < out@.len() implies (#[trigger] out@[q]).idx == q * n
                + w by {
                assert(job_ok(*a, *b, jobs@[q]));
            }
            assert forall|q: int| 0 <= q < out@.len() implies (#[trigger] out@[q]).idx < a.row
                * b.col by {
                assert(job_ok(*a, *b, jobs@[q]));
            }
            assert forall|q: int| 0 <= q < out@.len() implies (#[trigger] out@[q]).value
                == cell_dot(*a, *b, out@[q].idx as int) by {
                assert(job_ok(*a, *b, jobs@[q]));
                assert(out@[q].idx == jobs@[q].idx);
                assert(out@[q].value == dot(jobs@[q].row@, jobs@[q].col@));
            }
            assert(worker_output_ok(*a, *b, w as int, n as int, out@));
        }
        let mut k: usize = 0;
        while k < out.len()
            invariant
                a.wf(),
                b.wf(),
                compatible(*a, *b),
                0 < n,
                w < n,
                total == a.row * b.col,
                total <= usize::MAX,
                worker_output_ok(*a, *b, w as int, n as int, out@),
                k <= out@.len(),
                data@.len() == total,
                forall|t: int|
                    0 <= t < total && #[trigger] (t % (n as int)) < w ==> data@[t] == cell_dot(
                        *a,
                        *b,
                        t,
                    ),
                forall|t: int|
                    0 <= t < total && #[trigger] (t % (n as int)) == w && t / (n as int) < k
                        ==> data@[t] == cell_dot(*a, *b, t),
            decreases out@.len() - k,
        {
            let res = out[k];
            proof {
                lemma_fundamental_div_mod_converse(res.idx as int, n as int, k as int, w as int);
            }
            data.set(res.idx, res.value);
            proof {
                assert forall|t: int|
                    0 <= t < total && #[trigger] (t % (n as int)) == w && t / (n as int) < k + 1
                        implies data@[t] == cell_dot(*a, *b, t) by {
                    lemma_fundamental_div_mod(t, n as int);
                    assert(res.idx == k * (n as int) + w);
                    assert(res.idx as int % (n as int) == w && res.idx as int / (n as int) == k);
                    if t / (n as int) == k as int {
                        assert(k as int * (n as int) == (n as int) * (k as int))
                            by (nonlinear_arith);
                        assert(t == res.idx);
                        assert(data@[t] == res.value);
                        assert(res.value == cell_dot(*a, *b, res.idx as int));
                    } else {
                        assert(t != res.idx);
                    }
                }
            }
            k = k + 1;
        }
        proof {
            assert forall|t: int|
                0 <= t < total && #[trigger] (t % (n as int)) <= w implies data@[t] == cell_dot(
                *a,
                *b,
                t,
            ) by {
                lemma_fundamental_div_mod(t, n as int);
                lemma_mod_bound(t, n as int);
                if t % (n as int) == w {
                    if t / (n as int) >= out@.len() {
                        lemma_mul_inequality(out@.len() as int, t / (n as int), n as int);
                        assert(false);
                    }
                }
            }
        }
        w = w + 1;
    }
    proof {
        assert forall|t: int| 0 <= t < total implies data@[t] == cell_dot(*a, *b, t) by {
            lemma_mod_bound(t, n as int);
        }
    }
    let c = Matrix::new(data, a.row, b.col);
    proof {
        assert forall|i: int, j: int| 0 <= i < a.row && 0 <= j < b.col implies #[trigger] c.entry(
            i,
            j,
        ) == dot(a.row_seq(i), b.col_seq(j)) by {
            let cw = b.col as int;
            let t = i * cw + j;
            lemma_mul_inequality(i + 1, a.row as int, cw);
            assert((i + 1) * cw == i * cw + cw) by (nonlinear_arith);
            assert(i * cw >= 0) by (nonlinear_arith)
                requires
                    0 <= i && 0 <= cw,
            ;
            lemma_fundamental_div_mod_converse(t, cw, i, j);
            assert(data@[t] == cell_dot(*a, *b, t));
        }
    }
    Ok(c)
}

/// The non-panicking multiplication entry point, on the fixed pool of
/// [`WORKER_COUNT`] workers.  See [`multiply_with_workers`] for the full
/// behaviour.
pub fn multiply(a: &Matrix, b: &Matrix) -> (r: Result<Matrix, MatrixError>)
    requires
        a.wf(),
        b.wf(),
        compatible(*a, *b) ==> mul_fits(*a, *b) && a.row * b.col <= usize::MAX,
    ensures
        !compatible(*a, *b) <==> r == Err::<Matrix, MatrixError>(MatrixError::ShapeMismatch),
        r matches Ok(c) ==> is_product(*a, *b, c),
        compatible(*a, *b) ==> r is Ok,
{
    multiply_with_workers(a, b, WORKER_COUNT)
}

} // verus!
