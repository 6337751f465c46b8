use vstd::prelude::*;
use vstd::string::StringExecFns;

use crate::matrix::Matrix;
use crate::pool::row_vector;
use crate::vector::Vector;

verus! {

/// The decimal rendering of an `i64`, as std's formatter produces it.
pub uninterp spec fn i64_text(x: i64) -> Seq<char>;

/// The decimal rendering of a `usize`, as std's formatter produces it.
pub uninterp spec fn usize_text(x: usize) -> Seq<char>;

/// Relies on std's `Display` for `i64`: the decimal rendering depends on
/// the value alone.
#[verifier::external_body]
fn fmt_i64(x: i64) -> (s: String)
    ensures
        s@ == i64_text(x),
{
    format!("{}", x)
}

/// Relies on std's `Display` for `usize`: the decimal rendering depends on
/// the value alone.
#[verifier::external_body]
fn fmt_usize(x: usize) -> (s: String)
    ensures
        s@ == usize_text(x),
{
    format!("{}", x)
}

/// The cells of `s` from position `k` on, rendered in decimal and joined
/// by single spaces.
pub open spec fn cells_from(s: Seq<i64>, k: int) -> Seq<char>
    decreases s.len() - k,
{
    if k < 0 || k >= s.len() {
        Seq::empty()
    } else if k == s.len() - 1 {
        i64_text(s[k])
    } else {
        i64_text(s[k]) + " "@ + cells_from(s, k + 1)
    }
}

/// The rows of `m` from row `i` on, each rendered by [`cells_from`] and
/// joined by `", "`.
pub open spec fn rows_from(m: Matrix, i: int) -> Seq<char>
    decreases m.row - i,
{
    if i < 0 || i >= m.row {
        Seq::empty()
    } else if i == m.row - 1 {
        cells_from(m.row_seq(i), 0)
    } else {
        cells_from(m.row_seq(i), 0) + ", "@ + rows_from(m, i + 1)
    }
}

/// The complete rendering of a matrix:
/// `Matrix[row*col]{v00 v01 .., v10 v11 ..}`.
pub open spec fn matrix_text(m: Matrix) -> Seq<char> {
    "Matrix["@ + usize_text(m.row) + "*"@ + usize_text(m.col) + "]{"@ + rows_from(m, 0) + "}"@
}

/// Renders one row: decimal cells joined by single spaces.
fn cells_text(v: &Vector) -> (s: String)
    ensures
        s@ == cells_from(v@, 0),
{
    let mut s = String::new();
    proof {
        assert(s@ + cells_from(v@, 0) =~= cells_from(v@, 0));
    }
    let mut k: usize = 0;
    while k < v.data.len()
        invariant
            k <= v@.len(),
            s@ + cells_from(v@, k as int) == cells_from(v@, 0),
        decreases v@.len() - k,
    {
        let ghost s_old = s@;
        let piece = fmt_i64(v.data[k]);
        s.append(piece.as_str());
        if k + 1 < v.data.len() {
            s.append(" ");
            proof {
                assert(s@ + cells_from(v@, k + 1) =~= s_old + (i64_text(v@[k as int]) + " "@
                    + cells_from(v@, k + 1)));
            }
        } else {
            proof {
                assert(cells_from(v@, k + 1) =~= Seq::<char>::empty());
                assert(s@ + cells_from(v@, k + 1) =~= s_old + cells_from(v@, k as int));
            }
        }
        k = k + 1;
    }
    proof {
        assert(s@ + cells_from(v@, k as int) =~= s@);
    }
    s
}

impl Matrix {
    /// Renders the matrix as `Matrix[row*col]{..}`, single spaces between a
    /// row's cells and `", "` between rows.  A pure function of the matrix:
    /// rendering mutates nothing and repeated calls give the same text.
    pub fn to_text(&self) -> (s: String)
        requires
            self.wf(),
        ensures
            s@ == matrix_text(*self),
    {
        let mut s = String::new();
        s.append("Matrix[");
        let rt = fmt_usize(self.row);
        s.append(rt.as_str());
        s.append("*");
        let ct = fmt_usize(self.col);
        s.append(ct.as_str());
        s.append("]{");
        let ghost header = s@;
        proof {
            assert(header =~= "Matrix["@ + usize_text(self.row) + "*"@ + usize_text(self.col)
                + "]{"@);
        }
        let mut i: usize = 0;
        while i < self.row
            invariant
                self.wf(),
                i <= self.row,
                s@ + rows_from(*self, i as int) == header + rows_from(*self, 0),
                header == "Matrix["@ + usize_text(self.row) + "*"@ + usize_text(self.col)
                    + "]{"@,
            decreases self.row - i,
        {
            let ghost s_old = s@;
            let rv = row_vector(self, i);
            let piece = cells_text(&rv);
            s.append(piece.as_str());
            if i + 1 < self.row {
                s.append(", ");
                proof {
                    assert(s@ + rows_from(*self, i + 1) =~= s_old + (cells_from(
                        self.row_seq(i as int),
                        0,
                    ) + ", "@ + rows_from(*self, i + 1)));
                }
            } else {
                proof {
                    assert(rows_from(*self, i + 1) =~= Seq::<char>::empty());
                    assert(s@ + rows_from(*self, i + 1) =~= s_old + rows_from(*self, i as int));
                }
            }
            i = i + 1;
        }
        proof {
            assert(s@ + rows_from(*self, i as int) =~= s@);
        }
        s.append("}");
        proof {
            assert(s@ =~= matrix_text(*self));
        }
        s
    }
}

/// Formatting is stable: the rendered text is a function of the matrix
/// alone, so any two renderings of the same matrix are the same string of
/// characters, however often formatting is repeated.
pub proof fn lemma_text_stable(m: Matrix, s1: String, s2: String)
    requires
        s1@ == matrix_text(m),
        s2@ == matrix_text(m),
    ensures
        s1@ == s2@,
{
}

} // verus!
