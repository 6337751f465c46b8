use vstd::arithmetic::div_mod::lemma_mod_bound;
use vstd::arithmetic::mul::lemma_mul_inequality;
use vstd::prelude::*;

use crate::matrix::compatible;
use crate::matrix::mul_fits;
use crate::matrix::Matrix;
use crate::vector::dot;
use crate::vector::dot_fits;
use crate::vector::dot_product;
use crate::vector::Vector;

verus! {

/// One unit of work: the dot product needed for a single output cell.
/// Exactly one job exists per cell; `idx` is the cell's position in the
/// output's row-major buffer.  The row and column are owned copies, so a
/// job is free of any lifetime coupling with its source matrices.
pub struct Job {
    pub row: Vector,
    pub col: Vector,
    pub idx: usize,
}

/// What a worker hands back for one job: the dot product and the output
/// index it belongs to.  Produced exactly once per job.
#[derive(Clone, Copy)]
pub struct JobResult {
    pub value: i64,
    pub idx: usize,
}

impl Job {
    pub fn new(row: Vector, col: Vector, idx: usize) -> (job: Job)
        ensures
            job.row == row,
            job.col == col,
            job.idx == idx,
    {
        Job { row, col, idx }
    }
}

/// The job carries the right slices for its output cell: its row is row
/// `idx / b.col` of `a`, its column is column `idx % b.col` of `b`.
pub open spec fn job_ok(a: Matrix, b: Matrix, job: Job) -> bool {
    &&& job.idx < a.row * b.col
    &&& job.row@ == a.row_seq(job.idx as int / b.col as int)
    &&& job.col@ == b.col_seq(job.idx as int % b.col as int)
    &&& job_runnable(job)
}

/// A worker can run the job without panicking: equal lengths, and every
/// intermediate value of the accumulation fits in `i64`.
pub open spec fn job_runnable(job: Job) -> bool {
    &&& job.row@.len() == job.col@.len()
    &&& dot_fits(job.row@, job.col@)
}

/// The dot product owed at flat output index `t`.
pub open spec fn cell_dot(a: Matrix, b: Matrix, t: int) -> int {
    dot(a.row_seq(t / b.col as int), b.col_seq(t % b.col as int))
}

/// `out` is exactly the work of `jobs`, in order: one result per job,
/// carrying the job's own index and the exact dot product of its slices.
pub open spec fn outputs_match(jobs: Seq<Job>, out: Seq<JobResult>) -> bool {
    &&& out.len() == jobs.len()
    &&& forall|q: int| 0 <= q < jobs.len() ==> (#[trigger] out[q]).idx == jobs[q].idx
    &&& forall|q: int|
        0 <= q < jobs.len() ==> (#[trigger] out[q]).value == dot(jobs[q].row@, jobs[q].col@)
}

/// Copies row `i` of `m` out of the backing buffer: the contiguous slice
/// `data[i*col .. (i+1)*col]`.
pub fn row_vector(m: &Matrix, i: usize) -> (v: Vector)
    requires
        m.wf(),
        i < m.row,
    ensures
        v@ == m.row_seq(i as int),
{
    let len: usize = m.data.len();
    proof {
        lemma_mul_inequality(i as int + 1, m.row as int, m.col as int);
        assert((i as int + 1) * m.col == i as int * m.col + m.col) by (nonlinear_arith);
        assert(i as int * m.col >= 0) by (nonlinear_arith);
    }
    let base: usize = i * m.col;
    let mut data: Vec<i64> = Vec::new();
    let mut k: usize = 0;
    while k < m.col
        invariant
            m.wf(),
            i < m.row,
            len == m.data@.len(),
            base == i as int * m.col,
            base + m.col <= m.data@.len(),
            0 <= k <= m.col,
            data@ == m.data@.subrange(base as int, base + k),
        decreases m.col - k,
    {
        data.push(m.data[base + k]);
        assert(m.data@.subrange(base as int, base + k + 1) =~= m.data@.subrange(
            base as int,
            base + k,
        ).push(m.data@[base + k]));
        k = k + 1;
    }
    Vector::new(data)
}

/// Copies column `j` of `m` out of the backing buffer: the strided
/// elements `data[j], data[j + col], data[j + 2*col], ...`.
pub fn col_vector(m: &Matrix, j: usize) -> (v: Vector)
    requires
        m.wf(),
        j < m.col,
    ensures
        v@ == m.col_seq(j as int),
{
    let len: usize = m.data.len();
    let mut data: Vec<i64> = Vec::new();
    let mut k: usize = 0;
    while k < m.row
        invariant
            m.wf(),
            j < m.col,
            len == m.data@.len(),
            0 <= k <= m.row,
            data@.len() == k,
            forall|t: int| 0 <= t < k ==> data@[t] == m.data@[t * m.col + j],
        decreases m.row - k,
    {
        proof {
            lemma_mul_inequality(k as int + 1, m.row as int, m.col as int);
            assert((k as int + 1) * m.col == k as int * m.col + m.col) by (nonlinear_arith);
            assert(k as int * m.col >= 0) by (nonlinear_arith);
            assert(k as int * m.col + j < m.data@.len());
        }
        data.push(m.data[k * m.col + j]);
        k = k + 1;
    }
    assert(data@ =~= m.col_seq(j as int));
    Vector::new(data)
}

/// Builds the private job queue of worker `w` in a pool of `n` workers,
/// under the deterministic round-robin rule: worker `w` services exactly
/// the output indices congruent to `w` modulo `n`, in increasing order.
pub fn worker_jobs(a: &Matrix, b: &Matrix, w: usize, n: usize) -> (jobs: Vec<Job>)
    requires
        a.wf(),
        b.wf(),
        compatible(*a, *b),
        mul_fits(*a, *b),
        0 < n,
        w < n,
        a.row * b.col <= usize::MAX,
    ensures
        forall|q: int| 0 <= q < jobs@.len() ==> (#[trigger] jobs@[q]).idx == q * n + w,
        forall|q: int| 0 <= q < jobs@.len() ==> job_ok(*a, *b, #[trigger] jobs@[q]),
        jobs@.len() * n + w >= a.row * b.col,
{
    let total: usize = a.row * b.col;
    let mut jobs: Vec<Job> = Vec::new();
    let mut t: usize = w;
    proof {
        assert(jobs@.len() * n == 0) by (nonlinear_arith)
            requires
                jobs@.len() == 0,
        ;
    }
    loop
        invariant_except_break
            t == jobs@.len() * n + w,
        invariant
            a.wf(),
            b.wf(),
            compatible(*a, *b),
            mul_fits(*a, *b),
            0 < n,
            w < n,
            total == a.row * b.col,
            total <= usize::MAX,
            forall|q: int| 0 <= q < jobs@.len() ==> (#[trigger] jobs@[q]).idx == q * n + w,
            forall|q: int| 0 <= q < jobs@.len() ==> job_ok(*a, *b, #[trigger] jobs@[q]),
        ensures
            jobs@.len() * n + w >= total,
        decreases total - t,
    {
        if t >= total {
            break ;
        }
        assert(b.col > 0) by {
            if b.col == 0 {
                assert(a.row * b.col == 0) by (nonlinear_arith)
                    requires
                        b.col == 0,
                ;
            }
        }
        let i: usize = t / b.col;
        let j: usize = t % b.col;
        proof {
            lemma_mod_bound(t as int, b.col as int);
            assert(i < a.row) by {
                if i >= a.row {
                    lemma_mul_inequality(a.row as int, i as int, b.col as int);
                    vstd::arithmetic::div_mod::lemma_fundamental_div_mod(t as int, b.col as int);
                }
            }
        }
        let row = row_vector(a, i);
        let col = col_vector(b, j);
        proof {
            lemma_mul_inequality(i as int + 1, a.row as int, a.col as int);
            assert((i as int + 1) * a.col == i as int * a.col + a.col) by (nonlinear_arith);
            assert(i as int * a.col >= 0) by (nonlinear_arith);
            assert(dot_fits(a.row_seq(i as int), b.col_seq(j as int)));
            assert(a.row_seq(i as int).len() == a.col);
            assert(b.col_seq(j as int).len() == b.row);
        }
        let ghost old_len = jobs@.len();
        jobs.push(Job::new(row, col, t));
        proof {
            assert((old_len + 1) * n == old_len * n + n) by (nonlinear_arith);
        }
        let remaining: usize = total - t;
        if n < remaining {
            t = t + n;
        } else {
            assert(jobs@.len() * n + w >= total);
            break ;
        }
    }
    jobs
}

/// The work loop of one worker: takes the jobs of its queue in order,
/// computes each dot product, and emits one result per job carrying the
/// job's output index.  A job never terminates the worker or affects the
/// jobs after it.
pub fn run_worker(jobs: &Vec<Job>) -> (out: Vec<JobResult>)
    requires
        forall|q: int| 0 <= q < jobs@.len() ==> job_runnable(#[trigger] jobs@[q]),
    ensures
        outputs_match(jobs@, out@),
{
    let mut out: Vec<JobResult> = Vec::new();
    let mut q: usize = 0;
    while q < jobs.len()
        invariant
            forall|k: int| 0 <= k < jobs@.len() ==> job_runnable(#[trigger] jobs@[k]),
            0 <= q <= jobs@.len(),
            out@.len() == q,
            forall|k: int| 0 <= k < q ==> (#[trigger] out@[k]).idx == jobs@[k].idx,
            forall|k: int|
                0 <= k < q ==> (#[trigger] out@[k]).value == dot(jobs@[k].row@, jobs@[k].col@),
        decreases jobs@.len() - q,
    {
        let job = &jobs[q];
        let value = dot_product(&job.row, &job.col);
        out.push(JobResult { value, idx: job.idx });
        q = q + 1;
    }
    out
}

} // verus!
