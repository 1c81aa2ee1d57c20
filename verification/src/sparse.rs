//! Compressed sparse row matrix of fixed-point weights.

use vstd::prelude::*;
use crate::fixed::wrap_i32;

verus! {

/// A matrix in compressed sparse row form. Row `r` holds the entries
/// `row_ptr[r] .. row_ptr[r + 1]`; entry `k` stands in column `col_idx[k]`
/// and has the Q16.16 value `values[k]`.
pub struct CsrMatrix {
    pub row_ptr: Vec<usize>,
    pub col_idx: Vec<usize>,
    pub values: Vec<i32>,
}

/// The exact sum of the products of the entries `start .. end` with the
/// components of `x` in their columns.
pub open spec fn row_sum(values: Seq<i32>, cols: Seq<usize>, x: Seq<i32>, start: int, end: int) -> int
    decreases end - start,
{
    if end <= start {
        0
    } else {
        row_sum(values, cols, x, start, end - 1) + values[end - 1] * x[cols[end - 1] as int]
    }
}

impl CsrMatrix {
    /// The number of rows.
    pub open spec fn rows(&self) -> int {
        self.row_ptr@.len() - 1
    }

    /// Entry `k` exists and stands in a column of `x`.
    pub open spec fn entry_in_bounds(&self, k: int, x: Seq<i32>) -> bool {
        &&& 0 <= k < self.col_idx@.len()
        &&& k < self.values@.len()
        &&& self.col_idx@[k] < x.len()
    }

    /// Every entry of row `r` exists and stands in a column of `x`.
    pub open spec fn row_in_bounds(&self, r: int, x: Seq<i32>) -> bool {
        forall|k: int|
            self.row_ptr@[r] <= k < self.row_ptr@[r + 1] ==> #[trigger] self.entry_in_bounds(k, x)
    }

    /// Every partial sum of row `r` fits in 64 bits.
    pub open spec fn row_sums_fit(&self, r: int, x: Seq<i32>) -> bool {
        forall|k: int|
            self.row_ptr@[r] <= k <= self.row_ptr@[r + 1] ==> i64::MIN <= #[trigger] row_sum(
                self.values@,
                self.col_idx@,
                x,
                self.row_ptr@[r] as int,
                k,
            ) <= i64::MAX
    }

    /// The product with `x` is defined: there is a row pointer, the entries
    /// of every row exist and stand in columns of `x`, and no partial sum
    /// leaves 64 bits.
    pub open spec fn defined_for(&self, x: Seq<i32>) -> bool {
        &&& self.row_ptr@.len() >= 1
        &&& forall|r: int| 0 <= r < self.rows() ==> #[trigger] self.row_in_bounds(r, x)
        &&& forall|r: int| 0 <= r < self.rows() ==> #[trigger] self.row_sums_fit(r, x)
    }

    /// Component `r` of the product with `x`: the exact sum of row `r`,
    /// divided by `2^16` rounding toward negative infinity, wrapped into 32
    /// bits.
    pub open spec fn product_at(&self, r: int, x: Seq<i32>) -> int {
        wrap_i32(
            row_sum(
                self.values@,
                self.col_idx@,
                x,
                self.row_ptr@[r] as int,
                self.row_ptr@[r + 1] as int,
            ) / 65536,
        )
    }

    /// Puts a matrix together from its three arrays: at least one row
    /// pointer, and as many column indices as values.
    pub fn new(row_ptr: Vec<usize>, col_idx: Vec<usize>, values: Vec<i32>) -> (m: CsrMatrix)
        requires
            row_ptr@.len() >= 1,
            col_idx@.len() == values@.len(),
        ensures
            m.row_ptr == row_ptr,
            m.col_idx == col_idx,
            m.values == values,
    {
        CsrMatrix { row_ptr, col_idx, values }
    }

    /// The product of the matrix with the fixed-point vector `x`.
    pub fn mul_vector(&self, x: &[i32]) -> (y: Vec<i32>)
        requires
            self.defined_for(x@),
        ensures
            y@.len() == self.rows(),
            forall|r: int| 0 <= r < self.rows() ==> #[trigger] y@[r] == self.product_at(r, x@),
    {
        let rows = self.row_ptr.len() - 1;
        let mut result: Vec<i32> = Vec::new();
        let mut r: usize = 0;
        while r < rows
            invariant
                r <= rows,
                rows == self.rows(),
                self.defined_for(x@),
                result@.len() == r,
                forall|i: int| 0 <= i < r ==> #[trigger] result@[i] == self.product_at(i, x@),
            decreases rows - r,
        {
            let start = self.row_ptr[r];
            let end = self.row_ptr[r + 1];
            assert(self.row_in_bounds(r as int, x@));
            assert(self.row_sums_fit(r as int, x@));
            let mut acc: i64 = 0;
            let mut k: usize = start;
            while k < end
                invariant
                    r < rows,
                    rows == self.rows(),
                    start == self.row_ptr@[r as int],
                    end == self.row_ptr@[r + 1],
                    start <= k,
                    k <= end || (end < start && k == start),
                    self.row_in_bounds(r as int, x@),
                    self.row_sums_fit(r as int, x@),
                    acc == row_sum(self.values@, self.col_idx@, x@, start as int, k as int),
                decreases end - k,
            {
                assert(self.entry_in_bounds(k as int, x@));
                let c = self.col_idx[k];
                let v = self.values[k];
                let xc = x[c];
                assert(-0x4000_0000_0000_0000 <= (v as int) * (xc as int) <= 0x4000_0000_0000_0000)
                    by (nonlinear_arith)
                    requires
                        -0x8000_0000 <= v <= 0x7fff_ffff,
                        -0x8000_0000 <= xc <= 0x7fff_ffff,
                ;
                let term: i64 = (v as i64) * (xc as i64);
                assert(i64::MIN <= row_sum(
                    self.values@,
                    self.col_idx@,
                    x@,
                    start as int,
                    k + 1,
                ) <= i64::MAX);
                acc = acc + term;
                k = k + 1;
            }
            let q: i64 = acc >> 16;
            assert(q == acc / 65536) by (bit_vector)
                requires
                    q == acc >> 16,
            ;
            let out: i32 = #[verifier::truncate] (q as i32);
            assert(out == wrap_i32(q as int)) by (bit_vector)
                requires
                    out == q as i32,
            ;
            assert(row_sum(self.values@, self.col_idx@, x@, start as int, end as int) == acc) by {
                if end < start {
                    assert(row_sum(self.values@, self.col_idx@, x@, start as int, start as int) == 0);
                    assert(row_sum(self.values@, self.col_idx@, x@, start as int, end as int) == 0);
                }
            }
            result.push(out);
            r = r + 1;
        }
        result
    }
}

} // verus!
