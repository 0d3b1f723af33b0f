//! Square complex matrices in row-major order.
//!
//! A matrix of dimension `d` stores `d * d` complex entries; entry `(i, j)`
//! lives at flat position `i * d + j`.  The operations are identity
//! construction, element access, the standard product, the Kronecker
//! (tensor) product, sub-block embedding and extraction, and elementwise
//! epsilon-equality, which is what `==` means on matrices.

use vstd::prelude::*;

use crate::complex::{approx, c_clamped, c_one, c_zero, mul_im_raw, mul_re_raw, Complex, AMP_LIMIT};

verus! {

/// Largest accepted matrix dimension.
pub const MAX_DIM: usize = 4096;

/// A square complex matrix of dimension `dim`.
#[derive(Clone, Debug)]
pub struct Matrix {
    pub dim: usize,
    pub entries: Vec<Complex>,
}

/// Real part of the dot product of row `i` of `a` with column `j` of `b`,
/// summed over the first `k` terms; each term is scaled down, none is clamped.
pub open spec fn dot_re(a: Matrix, b: Matrix, i: int, j: int, k: int) -> int
    decreases k,
{
    if k <= 0 {
        0
    } else {
        dot_re(a, b, i, j, k - 1) + mul_re_raw(a.index(i, k - 1), b.index(k - 1, j))
    }
}

/// Imaginary part of the same dot product.
pub open spec fn dot_im(a: Matrix, b: Matrix, i: int, j: int, k: int) -> int
    decreases k,
{
    if k <= 0 {
        0
    } else {
        dot_im(a, b, i, j, k - 1) + mul_im_raw(a.index(i, k - 1), b.index(k - 1, j))
    }
}

/// Entry `(i, j)` of the matrix product of `a` and `b`.
pub open spec fn prod_entry(a: Matrix, b: Matrix, i: int, j: int) -> Complex {
    c_clamped(dot_re(a, b, i, j, a.dim as int), dot_im(a, b, i, j, a.dim as int))
}

/// Entry `(i, j)` of the Kronecker product of `a` and `b`.
pub open spec fn tensor_entry(a: Matrix, b: Matrix, i: int, j: int) -> Complex {
    c_clamped(
        mul_re_raw(a.index(i / (b.dim as int), j / (b.dim as int)), b.index(i % (b.dim as int), j % (b.dim as int))),
        mul_im_raw(a.index(i / (b.dim as int), j / (b.dim as int)), b.index(i % (b.dim as int), j % (b.dim as int))),
    )
}

/// Elementwise closeness within `EPSILON`; the meaning of `==` on matrices.
pub open spec fn matrix_approx(a: Matrix, b: Matrix) -> bool {
    &&& a.dim == b.dim
    &&& a.entries@.len() == b.entries@.len()
    &&& forall|k: int| 0 <= k < a.entries@.len() ==> approx(a.entries@[k], b.entries@[k])
}

impl Matrix {
    /// Entry at row `i`, column `j`.
    pub open spec fn index(self, i: int, j: int) -> Complex {
        self.entries@[i * (self.dim as int) + j]
    }

    pub open spec fn wf(self) -> bool {
        &&& 1 <= self.dim <= MAX_DIM
        &&& self.entries@.len() == (self.dim as int) * (self.dim as int)
        &&& forall|k: int| 0 <= k < self.entries@.len() ==> self.entries@[k].wf()
    }

    /// Construct from a row-major grid of entries.
    pub fn new(dim: usize, entries: Vec<Complex>) -> (r: Matrix)
        requires
            1 <= dim <= MAX_DIM,
            entries@.len() == (dim as int) * (dim as int),
            forall|k: int| 0 <= k < entries@.len() ==> entries@[k].wf(),
        ensures
            r.wf(),
            r.dim == dim,
            r.entries@ == entries@,
    {
        Matrix { dim, entries }
    }

    /// The identity matrix: one on the diagonal, zero elsewhere.
    pub fn identity(dim: usize) -> (r: Matrix)
        requires
            1 <= dim <= MAX_DIM,
        ensures
            r.wf(),
            r.dim == dim,
            forall|i: int, j: int|
                0 <= i < dim && 0 <= j < dim ==> r.index(i, j) == (if i == j {
                    c_one()
                } else {
                    c_zero()
                }),
    {
        proof {
            lemma_sq_bound(dim as int);
        }
        let total = dim * dim;
        let mut entries: Vec<Complex> = Vec::new();
        let mut p: usize = 0;
        while p < total
            invariant
                total == (dim as int) * (dim as int),
                1 <= dim <= MAX_DIM,
                p <= total,
                entries@.len() == p as int,
                forall|q: int|
                    0 <= q < p ==> entries@[q] == (if q / (dim as int) == q % (dim as int) {
                        c_one()
                    } else {
                        c_zero()
                    }),
            decreases total - p,
        {
            let row = p / dim;
            let col = p % dim;
            if row == col {
                entries.push(Complex::one());
            } else {
                entries.push(Complex::zero());
            }
            p = p + 1;
        }
        let r = Matrix { dim, entries };
        proof {
            assert forall|i: int, j: int| 0 <= i < dim && 0 <= j < dim implies r.index(i, j) == (if i == j {
                c_one()
            } else {
                c_zero()
            }) by {
                lemma_flat(dim as int, i, j);
            }
        }
        r
    }

    pub fn size(&self) -> (r: usize)
        ensures
            r == self.dim,
    {
        self.dim
    }

    /// Read the entry at row `i`, column `j`.
    pub fn get(&self, i: usize, j: usize) -> (r: Complex)
        requires
            self.wf(),
            i < self.dim,
            j < self.dim,
        ensures
            r == self.index(i as int, j as int),
            r.wf(),
    {
        proof {
            lemma_flat(self.dim as int, i as int, j as int);
        }
        self.entries[i * self.dim + j]
    }

    /// Overwrite the entry at row `i`, column `j`.
    pub fn set(&mut self, i: usize, j: usize, v: Complex)
        requires
            old(self).wf(),
            i < old(self).dim,
            j < old(self).dim,
            v.wf(),
        ensures
            final(self).wf(),
            final(self).dim == old(self).dim,
            forall|i2: int, j2: int|
                0 <= i2 < final(self).dim && 0 <= j2 < final(self).dim ==> final(self).index(i2, j2) == (if i2
                    == i && j2 == j {
                    v
                } else {
                    old(self).index(i2, j2)
                }),
    {
        proof {
            lemma_flat(self.dim as int, i as int, j as int);
        }
        let pos = i * self.dim + j;
        self.entries.set(pos, v);
        proof {
            assert forall|i2: int, j2: int| 0 <= i2 < self.dim && 0 <= j2 < self.dim implies self.index(i2, j2)
                == (if i2 == i && j2 == j {
                v
            } else {
                old(self).index(i2, j2)
            }) by {
                lemma_flat(self.dim as int, i2, j2);
            }
        }
    }

    /// Standard matrix product.
    pub fn multiply(&self, other: &Matrix) -> (r: Matrix)
        requires
            self.wf(),
            other.wf(),
            self.dim == other.dim,
        ensures
            r.wf(),
            r.dim == self.dim,
            forall|i: int, j: int|
                0 <= i < self.dim && 0 <= j < self.dim ==> r.index(i, j) == prod_entry(*self, *other, i, j),
    {
        let d = self.dim;
        proof {
            lemma_sq_bound(d as int);
        }
        let total = d * d;
        let mut entries: Vec<Complex> = Vec::new();
        let mut p: usize = 0;
        while p < total
            invariant
                self.wf(),
                other.wf(),
                self.dim == other.dim,
                d == self.dim,
                total == (d as int) * (d as int),
                p <= total,
                entries@.len() == p as int,
                forall|q: int|
                    0 <= q < p ==> entries@[q] == prod_entry(*self, *other, q / (d as int), q % (d as int)),
            decreases total - p,
        {
            let i = p / d;
            let j = p % d;
            proof {
                vstd::arithmetic::div_mod::lemma_multiply_divide_lt(p as int, d as int, d as int);
            }
            let mut acc_re: i128 = 0;
            let mut acc_im: i128 = 0;
            let mut k: usize = 0;
            while k < d
                invariant
                    self.wf(),
                    other.wf(),
                    self.dim == other.dim,
                    d == self.dim,
                    i < d,
                    j < d,
                    k <= d,
                    acc_re == dot_re(*self, *other, i as int, j as int, k as int),
                    acc_im == dot_im(*self, *other, i as int, j as int, k as int),
                    -(k as int) * 0x2_0000_0000_0000_0000_0000_0000_0000 <= acc_re
                        <= (k as int) * 0x2_0000_0000_0000_0000_0000_0000_0000,
                    -(k as int) * 0x2_0000_0000_0000_0000_0000_0000_0000 <= acc_im
                        <= (k as int) * 0x2_0000_0000_0000_0000_0000_0000_0000,
                decreases d - k,
            {
                let x = self.get(i, k);
                let y = other.get(k, j);
                let term_re = raw_term_re(x, y);
                let term_im = raw_term_im(x, y);
                proof {
                    lemma_step_sum(k as int, acc_re as int, term_re as int);
                    lemma_step_sum(k as int, acc_im as int, term_im as int);
                }
                acc_re = acc_re + term_re;
                acc_im = acc_im + term_im;
                k = k + 1;
            }
            entries.push(Complex::new(clamp_to_amp(acc_re), clamp_to_amp(acc_im)));
            p = p + 1;
        }
        let r = Matrix { dim: d, entries };
        proof {
            assert forall|i: int, j: int| 0 <= i < d && 0 <= j < d implies r.index(i, j) == prod_entry(
                *self,
                *other,
                i,
                j,
            ) by {
                lemma_flat(d as int, i, j);
            }
        }
        r
    }

    /// Kronecker product; the result has dimension `self.dim * other.dim`.
    pub fn tensor(&self, other: &Matrix) -> (r: Matrix)
        requires
            self.wf(),
            other.wf(),
            (self.dim as int) * (other.dim as int) <= MAX_DIM as int,
        ensures
            r.wf(),
            r.dim == (self.dim as int) * (other.dim as int),
            forall|i: int, j: int|
                0 <= i < r.dim && 0 <= j < r.dim ==> r.index(i, j) == tensor_entry(*self, *other, i, j),
    {
        let d = self.dim * other.dim;
        proof {
            assert((self.dim as int) * (other.dim as int) >= 1 * 1) by (nonlinear_arith)
                requires
                    self.dim as int >= 1,
                    other.dim as int >= 1,
            ;
        }
        proof {
            lemma_sq_bound(d as int);
        }
        let total = d * d;
        let mut entries: Vec<Complex> = Vec::new();
        let mut p: usize = 0;
        while p < total
            invariant
                self.wf(),
                other.wf(),
                d == (self.dim as int) * (other.dim as int),
                1 <= d <= MAX_DIM,
                total == (d as int) * (d as int),
                p <= total,
                entries@.len() == p as int,
                forall|q: int|
                    0 <= q < p ==> entries@[q] == tensor_entry(*self, *other, q / (d as int), q % (d as int)),
            decreases total - p,
        {
            let i = p / d;
            let j = p % d;
            proof {
                vstd::arithmetic::div_mod::lemma_multiply_divide_lt(p as int, d as int, d as int);
                assert((self.dim as int) * (other.dim as int) == (other.dim as int) * (self.dim as int))
                    by (nonlinear_arith);
                vstd::arithmetic::div_mod::lemma_multiply_divide_lt(
                    i as int,
                    other.dim as int,
                    self.dim as int,
                );
                vstd::arithmetic::div_mod::lemma_multiply_divide_lt(
                    j as int,
                    other.dim as int,
                    self.dim as int,
                );
            }
            let a = self.get(i / other.dim, j / other.dim);
            let b = other.get(i % other.dim, j % other.dim);
            entries.push(a.mul(b));
            p = p + 1;
        }
        let r = Matrix { dim: d, entries };
        proof {
            assert forall|i: int, j: int| 0 <= i < d && 0 <= j < d implies r.index(i, j) == tensor_entry(
                *self,
                *other,
                i,
                j,
            ) by {
                lemma_flat(d as int, i, j);
            }
        }
        r
    }

    /// Overwrite the block of side `sub.dim` whose top-left corner is at
    /// `(row_offset, col_offset)` with the entries of `sub`.
    pub fn embed(&mut self, sub: &Matrix, row_offset: usize, col_offset: usize)
        requires
            old(self).wf(),
            sub.wf(),
            row_offset + sub.dim <= old(self).dim,
            col_offset + sub.dim <= old(self).dim,
        ensures
            final(self).wf(),
            final(self).dim == old(self).dim,
            forall|i: int, j: int|
                0 <= i < final(self).dim && 0 <= j < final(self).dim ==> final(self).index(i, j) == (if
                    row_offset <= i < row_offset + sub.dim && col_offset <= j < col_offset + sub.dim {
                    sub.index(i - row_offset, j - col_offset)
                } else {
                    old(self).index(i, j)
                }),
    {
        let sd = sub.dim;
        let d = self.dim;
        proof {
            lemma_sq_bound(d as int);
        }
        let total = d * d;
        let mut entries: Vec<Complex> = Vec::new();
        let mut p: usize = 0;
        while p < total
            invariant
                self.wf(),
                sub.wf(),
                self.dim == old(self).dim,
                *self == *old(self),
                sd == sub.dim,
                d == self.dim,
                row_offset + sd <= d,
                col_offset + sd <= d,
                total == (d as int) * (d as int),
                p <= total,
                entries@.len() == p as int,
                forall|q: int| 0 <= q < p ==> (#[trigger] entries@[q]).wf(),
                forall|q: int|
                    0 <= q < p ==> entries@[q] == (if row_offset <= q / (d as int) < row_offset + sd
                        && col_offset <= q % (d as int) < col_offset + sd {
                        sub.index(q / (d as int) - row_offset, q % (d as int) - col_offset)
                    } else {
                        old(self).index(q / (d as int), q % (d as int))
                    }),
            decreases total - p,
        {
            let i = p / d;
            let j = p % d;
            proof {
                vstd::arithmetic::div_mod::lemma_multiply_divide_lt(p as int, d as int, d as int);
            }
            let in_rows = row_offset <= i && i < row_offset + sd;
            let in_cols = col_offset <= j && j < col_offset + sd;
            if in_rows && in_cols {
                entries.push(sub.get(i - row_offset, j - col_offset));
            } else {
                entries.push(self.get(i, j));
            }
            p = p + 1;
        }
        self.entries = entries;
        proof {
            assert forall|i: int, j: int| 0 <= i < d && 0 <= j < d implies self.index(i, j) == (if row_offset
                <= i < row_offset + sd && col_offset <= j < col_offset + sd {
                sub.index(i - row_offset, j - col_offset)
            } else {
                old(self).index(i, j)
            }) by {
                lemma_flat(d as int, i, j);
            }
        }
    }

    /// Read the block of side `size` whose top-left corner is at
    /// `(row_offset, col_offset)` as a fresh matrix.
    pub fn extract(&self, row_offset: usize, col_offset: usize, size: usize) -> (r: Matrix)
        requires
            self.wf(),
            1 <= size,
            row_offset + size <= self.dim,
            col_offset + size <= self.dim,
        ensures
            r.wf(),
            r.dim == size,
            forall|i: int, j: int|
                0 <= i < size && 0 <= j < size ==> r.index(i, j) == self.index(
                    row_offset + i,
                    col_offset + j,
                ),
    {
        proof {
            lemma_sq_bound(size as int);
        }
        let total = size * size;
        let mut entries: Vec<Complex> = Vec::new();
        let mut q: usize = 0;
        while q < total
            invariant
                self.wf(),
                1 <= size,
                row_offset + size <= self.dim,
                col_offset + size <= self.dim,
                total == (size as int) * (size as int),
                q <= total,
                entries@.len() == q as int,
                forall|p: int| 0 <= p < q ==> entries@[p].wf(),
                forall|p: int|
                    0 <= p < q ==> entries@[p] == self.index(
                        row_offset + p / (size as int),
                        col_offset + p % (size as int),
                    ),
            decreases total - q,
        {
            let i = q / size;
            let j = q % size;
            proof {
                vstd::arithmetic::div_mod::lemma_multiply_divide_lt(q as int, size as int, size as int);
            }
            entries.push(self.get(row_offset + i, col_offset + j));
            q = q + 1;
        }
        let r = Matrix { dim: size, entries };
        proof {
            assert forall|i: int, j: int| 0 <= i < size && 0 <= j < size implies r.index(i, j) == self.index(
                row_offset + i,
                col_offset + j,
            ) by {
                lemma_flat(size as int, i, j);
            }
        }
        r
    }
}

impl PartialEq for Matrix {
    /// Elementwise epsilon-equality.
    fn eq(&self, other: &Matrix) -> (r: bool) {
        if self.dim != other.dim {
            return false;
        }
        if self.entries.len() != other.entries.len() {
            return false;
        }
        let mut k: usize = 0;
        while k < self.entries.len()
            invariant
                self.entries@.len() == other.entries@.len(),
                k <= self.entries@.len(),
                forall|p: int| 0 <= p < k ==> approx(self.entries@[p], other.entries@[p]),
            decreases self.entries@.len() - k,
        {
            if !self.entries[k].approx_eq(other.entries[k]) {
                return false;
            }
            k = k + 1;
        }
        true
    }
}

impl vstd::std_specs::cmp::PartialEqSpecImpl for Matrix {
    open spec fn obeys_eq_spec() -> bool {
        true
    }

    open spec fn eq_spec(&self, other: &Matrix) -> bool {
        matrix_approx(*self, *other)
    }
}

/// Real part of one scaled product term.
pub(crate) fn raw_term_re(x: Complex, y: Complex) -> (r: i128)
    requires
        x.wf(),
        y.wf(),
    ensures
        r as int == mul_re_raw(x, y),
        -0x2_0000_0000_0000_0000_0000_0000_0000 <= r <= 0x2_0000_0000_0000_0000_0000_0000_0000,
{
    proof {
        crate::complex::lemma_term_bounds(x, y);
    }
    crate::complex::scale_div(x.re as i128 * y.re as i128 - x.im as i128 * y.im as i128)
}

/// Imaginary part of one scaled product term.
pub(crate) fn raw_term_im(x: Complex, y: Complex) -> (r: i128)
    requires
        x.wf(),
        y.wf(),
    ensures
        r as int == mul_im_raw(x, y),
        -0x2_0000_0000_0000_0000_0000_0000_0000 <= r <= 0x2_0000_0000_0000_0000_0000_0000_0000,
{
    proof {
        crate::complex::lemma_term_bounds(x, y);
    }
    crate::complex::scale_div(x.re as i128 * y.im as i128 + x.im as i128 * y.re as i128)
}

/// Clamp an accumulated sum into the stored component range.
pub(crate) fn clamp_to_amp(x: i128) -> (r: i64)
    ensures
        r as int == crate::complex::clamp(x as int),
        -AMP_LIMIT <= r <= AMP_LIMIT,
{
    if x > AMP_LIMIT as i128 {
        AMP_LIMIT
    } else if x < -(AMP_LIMIT as i128) {
        -AMP_LIMIT
    } else {
        x as i64
    }
}

/// Adding one more bounded term keeps the running sum bounded.
pub(crate) proof fn lemma_step_sum(k: int, acc: int, term: int)
    requires
        0 <= k < MAX_DIM as int,
        -k * 0x2_0000_0000_0000_0000_0000_0000_0000 <= acc <= k * 0x2_0000_0000_0000_0000_0000_0000_0000,
        -0x2_0000_0000_0000_0000_0000_0000_0000 <= term <= 0x2_0000_0000_0000_0000_0000_0000_0000,
    ensures
        -(k + 1) * 0x2_0000_0000_0000_0000_0000_0000_0000 <= acc + term <= (k + 1)
            * 0x2_0000_0000_0000_0000_0000_0000_0000,
        -0x2000_0000_0000_0000_0000_0000_0000_0000 <= acc + term
            <= 0x2000_0000_0000_0000_0000_0000_0000_0000,
{
    assert((k + 1) * 0x2_0000_0000_0000_0000_0000_0000_0000 == k * 0x2_0000_0000_0000_0000_0000_0000_0000
        + 0x2_0000_0000_0000_0000_0000_0000_0000) by (nonlinear_arith);
    assert(k * 0x2_0000_0000_0000_0000_0000_0000_0000 <= (MAX_DIM as int)
        * 0x2_0000_0000_0000_0000_0000_0000_0000) by (nonlinear_arith)
        requires
            0 <= k < MAX_DIM as int,
    ;
}

/// Row-major flattening: position `i * d + j` is in bounds and decodes back
/// to row `i` and column `j`.
pub proof fn lemma_flat(d: int, i: int, j: int)
    requires
        0 < d <= MAX_DIM as int,
        0 <= i < d,
        0 <= j < d,
    ensures
        0 <= i * d + j < d * d,
        d * d <= 16777216,
        (i * d + j) / d == i,
        (i * d + j) % d == j,
{
    vstd::arithmetic::div_mod::lemma_fundamental_div_mod_converse(i * d + j, d, i, j);
    assert(0 <= i * d + j < d * d && d * d <= 16777216) by (nonlinear_arith)
        requires
            0 < d <= MAX_DIM as int,
            0 <= i < d,
            0 <= j < d,
    ;
}

/// The square of a dimension stays small.
pub proof fn lemma_sq_bound(d: int)
    requires
        0 <= d <= MAX_DIM as int,
    ensures
        d * d <= 16777216,
{
    assert(d * d <= 16777216) by (nonlinear_arith)
        requires
            0 <= d <= MAX_DIM as int,
    ;
}

} // verus!
