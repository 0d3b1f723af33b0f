//! The state vector of a quantum register.
//!
//! A register of `n` qubits holds `2^n` complex amplitudes; the binary
//! expansion of an amplitude's index gives each qubit's classical value,
//! with qubit 0 the most significant bit of the index.  Applying a gate of
//! width `k` tensor-expands its operator with the identity on the remaining
//! qubits, so the leading qubits are the ones the operator touches, and
//! left-multiplies the amplitude vector by the expanded operator.

use vstd::prelude::*;

use crate::complex::{approx, c_clamped, c_zero, mul_im_raw, mul_re_raw, Complex};
use crate::gate::{pow2, pow2_exec, Gate};
use crate::matrix::{clamp_to_amp, lemma_flat, raw_term_im, raw_term_re, tensor_entry, Matrix, MAX_DIM};

verus! {

/// Entry `(i, j)` of the operator of `g` expanded to a register whose
/// dimension is `m` times the operator's own; the expansion is the Kronecker
/// product of the operator with the `m`-dimensional identity.
pub open spec fn expand_index(g: Gate, m: int, i: int, j: int) -> Complex {
    if i % m == j % m {
        g.operator.index(i / m, j / m)
    } else {
        c_zero()
    }
}

/// Real part of row `i` of the expanded operator dotted with `v`, summed
/// over the first `k` terms.
pub open spec fn vdot_re(g: Gate, m: int, v: Seq<Complex>, i: int, k: int) -> int
    decreases k,
{
    if k <= 0 {
        0
    } else {
        vdot_re(g, m, v, i, k - 1) + mul_re_raw(expand_index(g, m, i, k - 1), v[k - 1])
    }
}

/// Imaginary part of the same dot product.
pub open spec fn vdot_im(g: Gate, m: int, v: Seq<Complex>, i: int, k: int) -> int
    decreases k,
{
    if k <= 0 {
        0
    } else {
        vdot_im(g, m, v, i, k - 1) + mul_im_raw(expand_index(g, m, i, k - 1), v[k - 1])
    }
}

/// Amplitude `i` after applying `g` to the amplitude vector `v`.
pub open spec fn apply_entry(g: Gate, m: int, v: Seq<Complex>, i: int) -> Complex {
    c_clamped(vdot_re(g, m, v, i, v.len() as int), vdot_im(g, m, v, i, v.len() as int))
}

/// Elementwise closeness within `EPSILON`; the meaning of `==` on kets.
pub open spec fn ket_approx(a: Ket, b: Ket) -> bool {
    &&& a.elements@.len() == b.elements@.len()
    &&& forall|k: int| 0 <= k < a.elements@.len() ==> approx(a.elements@[k], b.elements@[k])
}

/// A state vector of complex amplitudes.
#[derive(Clone, Debug)]
pub struct Ket {
    pub elements: Vec<Complex>,
}

impl Ket {
    pub open spec fn wf(self) -> bool {
        &&& 1 <= self.elements@.len() <= MAX_DIM
        &&& forall|k: int| 0 <= k < self.elements@.len() ==> self.elements@[k].wf()
    }

    /// A vector of `size` zero amplitudes.
    pub fn new(size: usize) -> (r: Ket)
        requires
            1 <= size <= MAX_DIM,
        ensures
            r.wf(),
            r.elements@.len() == size,
            forall|k: int| 0 <= k < size ==> r.elements@[k] == c_zero(),
    {
        let mut elements: Vec<Complex> = Vec::new();
        let mut k: usize = 0;
        while k < size
            invariant
                k <= size,
                elements@.len() == k as int,
                forall|p: int| 0 <= p < k ==> elements@[p] == c_zero(),
            decreases size - k,
        {
            elements.push(Complex::zero());
            k = k + 1;
        }
        Ket { elements }
    }

    /// Number of amplitudes of a register of `width` qubits.
    pub fn size(width: usize) -> (r: usize)
        requires
            width <= crate::gate::MAX_WIDTH,
        ensures
            r == pow2(width as nat),
            1 <= r <= MAX_DIM,
    {
        pow2_exec(width)
    }

    /// Read the amplitude at basis index `i`.
    pub fn get(&self, i: usize) -> (r: Complex)
        requires
            i < self.elements@.len(),
        ensures
            r == self.elements@[i as int],
    {
        self.elements[i]
    }

    /// Overwrite the amplitude at basis index `i`.
    pub fn set(&mut self, i: usize, v: Complex)
        requires
            old(self).wf(),
            i < old(self).elements@.len(),
            v.wf(),
        ensures
            final (self).wf(),
            final (self).elements@ == old(self).elements@.update(i as int, v),
    {
        self.elements.set(i, v);
    }

    /// Apply `gate` by expanding its operator to the register's full
    /// dimension and left-multiplying the amplitude vector.
    pub fn apply(&mut self, gate: &Gate)
        requires
            old(self).wf(),
            gate.wf(),
            pow2(gate.width as nat) <= old(self).elements@.len(),
            old(self).elements@.len() as int % (pow2(gate.width as nat) as int) == 0,
        ensures
            final (self).wf(),
            final (self).elements@.len() == old(self).elements@.len(),
            forall|i: int|
                0 <= i < old(self).elements@.len() ==> final (self).elements@[i] == apply_entry(
                    *gate,
                    old(self).elements@.len() as int / (pow2(gate.width as nat) as int),
                    old(self).elements@,
                    i,
                ),
    {
        let pk = pow2_exec(gate.width);
        let len = self.elements.len();
        let m = len / pk;
        proof {
            vstd::arithmetic::div_mod::lemma_fundamental_div_mod(len as int, pk as int);
            assert((pk as int) * (m as int) == (m as int) * (pk as int)) by (nonlinear_arith);
            assert(len as int == (m as int) * (pk as int));
            assert((m as int) * (pk as int) >= m as int) by (nonlinear_arith)
                requires
                    pk as int >= 1,
                    m as int >= 0,
            ;
            if m == 0 {
                assert(len as int == 0 * (pk as int));
                assert(0 * (pk as int) == 0) by (nonlinear_arith);
            }
        }
        let idm = Matrix::identity(m);
        let exp = gate.operator.tensor(&idm);
        proof {
            assert forall|i: int, j: int| 0 <= i < len && 0 <= j < len implies exp.index(i, j)
                == expand_index(*gate, m as int, i, j) && expand_index(*gate, m as int, i, j).wf() by {
                lemma_expand_entry(*gate, idm, exp, m as int, len as int, i, j);
            }
        }
        let mut out: Vec<Complex> = Vec::new();
        let mut i: usize = 0;
        while i < len
            invariant
                self.wf(),
                gate.wf(),
                exp.wf(),
                len == self.elements@.len(),
                exp.dim == len,
                1 <= m,
                i <= len,
                out@.len() == i as int,
                self.elements@ == old(self).elements@,
                forall|i2: int, j2: int|
                    0 <= i2 < len && 0 <= j2 < len ==> exp.index(i2, j2) == expand_index(
                        *gate,
                        m as int,
                        i2,
                        j2,
                    ),
                forall|p: int|
                    0 <= p < i ==> out@[p] == apply_entry(*gate, m as int, self.elements@, p) && out@[p].wf(),
            decreases len - i,
        {
            let mut acc_re: i128 = 0;
            let mut acc_im: i128 = 0;
            let mut j: usize = 0;
            while j < len
                invariant
                    self.wf(),
                    gate.wf(),
                    exp.wf(),
                    len == self.elements@.len(),
                    exp.dim == len,
                    i < len,
                    j <= len,
                    self.elements@ == old(self).elements@,
                    forall|i2: int, j2: int|
                        0 <= i2 < len && 0 <= j2 < len ==> exp.index(i2, j2) == expand_index(
                            *gate,
                            m as int,
                            i2,
                            j2,
                        ),
                    acc_re == vdot_re(*gate, m as int, self.elements@, i as int, j as int),
                    acc_im == vdot_im(*gate, m as int, self.elements@, i as int, j as int),
                    -(j as int) * 0x2_0000_0000_0000_0000_0000_0000_0000 <= acc_re <= (j as int)
                        * 0x2_0000_0000_0000_0000_0000_0000_0000,
                    -(j as int) * 0x2_0000_0000_0000_0000_0000_0000_0000 <= acc_im <= (j as int)
                        * 0x2_0000_0000_0000_0000_0000_0000_0000,
                decreases len - j,
            {
                let x = exp.get(i, j);
                let y = self.elements[j];
                let term_re = raw_term_re(x, y);
                let term_im = raw_term_im(x, y);
                proof {
                    crate::matrix::lemma_step_sum(j as int, acc_re as int, term_re as int);
                    crate::matrix::lemma_step_sum(j as int, acc_im as int, term_im as int);
                }
                acc_re = acc_re + term_re;
                acc_im = acc_im + term_im;
                j = j + 1;
            }
            out.push(Complex::new(clamp_to_amp(acc_re), clamp_to_amp(acc_im)));
            i = i + 1;
        }
        self.elements = out;
    }
}

/// The tensor expansion of a gate's operator with the identity has the
/// operator's entry where row and column agree modulo the identity block,
/// and zero elsewhere.
proof fn lemma_expand_entry(g: Gate, idm: Matrix, exp: Matrix, m: int, len: int, i: int, j: int)
    requires
        g.wf(),
        idm.wf(),
        idm.dim == m,
        1 <= m,
        len == (g.operator.dim as int) * m,
        forall|a: int, b: int|
            0 <= a < m && 0 <= b < m ==> idm.index(a, b) == (if a == b {
                crate::complex::c_one()
            } else {
                c_zero()
            }),
        forall|a: int, b: int|
            0 <= a < len && 0 <= b < len ==> exp.index(a, b) == tensor_entry(g.operator, idm, a, b),
        0 <= i < len,
        0 <= j < len,
    ensures
        exp.index(i, j) == expand_index(g, m, i, j),
        expand_index(g, m, i, j).wf(),
{
    let d = g.operator.dim as int;
    assert(d * m == m * d) by (nonlinear_arith);
    vstd::arithmetic::div_mod::lemma_multiply_divide_lt(i, m, d);
    vstd::arithmetic::div_mod::lemma_multiply_divide_lt(j, m, d);
    lemma_flat(d, i / m, j / m);
    assert(g.operator.index(i / m, j / m).wf());
    let a = g.operator.index(i / m, j / m);
    if i % m == j % m {
        crate::complex::lemma_mul_one(a);
        assert(exp.index(i, j) == c_clamped(mul_re_raw(a, crate::complex::c_one()), mul_im_raw(
            a,
            crate::complex::c_one(),
        )));
        assert(c_clamped(a.re as int, a.im as int) == a);
    } else {
        crate::complex::lemma_mul_zero(a);
        assert(c_clamped(0, 0) == c_zero());
    }
}

impl PartialEq for Ket {
    /// Elementwise epsilon-equality of the amplitudes.
    fn eq(&self, other: &Ket) -> (r: bool) {
        if self.elements.len() != other.elements.len() {
            return false;
        }
        let mut k: usize = 0;
        while k < self.elements.len()
            invariant
                self.elements@.len() == other.elements@.len(),
                k <= self.elements@.len(),
                forall|p: int| 0 <= p < k ==> approx(self.elements@[p], other.elements@[p]),
            decreases self.elements@.len() - k,
        {
            if !self.elements[k].approx_eq(other.elements[k]) {
                return false;
            }
            k = k + 1;
        }
        true
    }
}

impl vstd::std_specs::cmp::PartialEqSpecImpl for Ket {
    open spec fn obeys_eq_spec() -> bool {
        true
    }

    open spec fn eq_spec(&self, other: &Ket) -> bool {
        ket_approx(*self, *other)
    }
}

} // verus!
