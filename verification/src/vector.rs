use vstd::prelude::*;

verus! {

/// An owned, ordered sequence of numbers: one row or one column of a matrix,
/// copied out of its source so that it can cross a thread boundary freely.
pub struct Vector {
    pub data: Vec<i64>,
}

impl View for Vector {
    type V = Seq<i64>;

    open spec fn view(&self) -> Seq<i64> {
        self.data@
    }
}

impl Vector {
    pub fn new(data: Vec<i64>) -> (v: Vector)
        ensures
            v@ == data@,
    {
        Vector { data }
    }
}

/// Sum of the first `k` products `a[t] * b[t]`, accumulated left to right.
pub open spec fn dot_prefix(a: Seq<i64>, b: Seq<i64>, k: int) -> int
    decreases k,
{
    if k <= 0 {
        0
    } else {
        dot_prefix(a, b, k - 1) + a[k - 1] * b[k - 1]
    }
}

/// The exact mathematical dot product of two equally long sequences.
pub open spec fn dot(a: Seq<i64>, b: Seq<i64>) -> int {
    dot_prefix(a, b, a.len() as int)
}

/// Every intermediate value of the left-to-right accumulation fits in `i64`:
/// the machine-level condition under which the dot product is computed
/// exactly, with no overflow.
pub open spec fn dot_fits(a: Seq<i64>, b: Seq<i64>) -> bool {
    &&& forall|k: int| 0 <= k < a.len() ==> i64::MIN <= (#[trigger] a[k]) * b[k] <= i64::MAX
    &&& forall|k: int|
        0 <= k <= a.len() ==> i64::MIN <= #[trigger] dot_prefix(a, b, k) <= i64::MAX
}

/// `Σ a[t] * b[t]`, seeded with the additive identity and accumulated left
/// to right.  A length mismatch is a caller error, not a reported one.
pub fn dot_product(a: &Vector, b: &Vector) -> (r: i64)
    requires
        a@.len() == b@.len(),
        dot_fits(a@, b@),
    ensures
        r == dot(a@, b@),
{
    let mut ret: i64 = 0;
    let mut i: usize = 0;
    while i < a.data.len()
        invariant
            0 <= i <= a@.len(),
            a@.len() == b@.len(),
            dot_fits(a@, b@),
            ret == dot_prefix(a@, b@, i as int),
        decreases a@.len() - i,
    {
        assert(i64::MIN <= a@[i as int] * b@[i as int] <= i64::MAX);
        assert(i64::MIN <= dot_prefix(a@, b@, i + 1) <= i64::MAX);
        ret = ret + a.data[i] * b.data[i];
        i = i + 1;
    }
    ret
}

} // verus!
