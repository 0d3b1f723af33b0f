//! The catalog of named gates.
//!
//! Every constructor returns a `Gate` whose operator entries are pinned
//! exactly, in fixed-point units.  The irrational entry of the Hadamard gate
//! is `sqrt(2)/2` rounded to the nearest fixed-point unit.  The two-qubit
//! matrices follow the register's bit convention: a basis index's high bit
//! is qubit 0, its low bit qubit 1, so `swap` exchanges the two bits of the
//! index and `controlled_not` flips the low bit when the high bit is set.

use vstd::prelude::*;

use crate::complex::{c_i, c_one, c_zero, Complex, SCALE};
use crate::gate::{pow2, Gate, MAX_WIDTH};
use crate::matrix::{lemma_flat, Matrix};

verus! {

/// `sqrt(2)/2` in fixed-point units, rounded to nearest.
pub const HALF_SQRT2: i64 = 46341;

/// `1/2` in fixed-point units.
pub const HALF_ONE: i64 = 32768;

/// One on the diagonal, zero elsewhere.
pub open spec fn is_identity_op(m: Matrix) -> bool {
    forall|i: int, j: int|
        0 <= i < m.dim && 0 <= j < m.dim ==> m.index(i, j) == (if i == j {
            c_one()
        } else {
            c_zero()
        })
}

pub open spec fn is_hadamard_op(m: Matrix) -> bool {
    &&& m.dim == 2
    &&& m.index(0, 0) == (Complex { re: HALF_SQRT2, im: 0 })
    &&& m.index(0, 1) == (Complex { re: HALF_SQRT2, im: 0 })
    &&& m.index(1, 0) == (Complex { re: HALF_SQRT2, im: 0 })
    &&& m.index(1, 1) == (Complex { re: (-HALF_SQRT2) as i64, im: 0 })
}

pub open spec fn is_pauli_x_op(m: Matrix) -> bool {
    &&& m.dim == 2
    &&& m.index(0, 0) == c_zero()
    &&& m.index(0, 1) == c_one()
    &&& m.index(1, 0) == c_one()
    &&& m.index(1, 1) == c_zero()
}

pub open spec fn is_pauli_y_op(m: Matrix) -> bool {
    &&& m.dim == 2
    &&& m.index(0, 0) == c_zero()
    &&& m.index(0, 1) == (Complex { re: 0, im: (-SCALE) as i64 })
    &&& m.index(1, 0) == c_i()
    &&& m.index(1, 1) == c_zero()
}

pub open spec fn is_pauli_z_op(m: Matrix) -> bool {
    &&& m.dim == 2
    &&& m.index(0, 0) == c_one()
    &&& m.index(0, 1) == c_zero()
    &&& m.index(1, 0) == c_zero()
    &&& m.index(1, 1) == (Complex { re: (-SCALE) as i64, im: 0 })
}

/// The identity with its second and third rows exchanged.
pub open spec fn is_swap_op(m: Matrix) -> bool {
    &&& m.dim == 4
    &&& forall|i: int, j: int|
        0 <= i < 4 && 0 <= j < 4 ==> m.index(i, j) == (if (i == 0 && j == 0) || (i == 1 && j == 2) || (i == 2
            && j == 1) || (i == 3 && j == 3) {
            c_one()
        } else {
            c_zero()
        })
}

/// Half-way of a swap: ones at the corners, the middle block mixes the two
/// inner amplitudes with coefficients `(1 +- i)/2`.
pub open spec fn is_sqrt_swap_op(m: Matrix) -> bool {
    &&& m.dim == 4
    &&& m.index(0, 0) == c_one()
    &&& m.index(3, 3) == c_one()
    &&& m.index(1, 1) == (Complex { re: HALF_ONE, im: HALF_ONE })
    &&& m.index(2, 2) == (Complex { re: HALF_ONE, im: HALF_ONE })
    &&& m.index(1, 2) == (Complex { re: HALF_ONE, im: (-HALF_ONE) as i64 })
    &&& m.index(2, 1) == (Complex { re: HALF_ONE, im: (-HALF_ONE) as i64 })
    &&& forall|i: int, j: int|
        0 <= i < 4 && 0 <= j < 4 && !(i == j || (i == 1 && j == 2) || (i == 2 && j == 1)) ==> m.index(i, j)
            == c_zero()
}

/// The identity with its third and fourth rows exchanged.
pub open spec fn is_cnot_op(m: Matrix) -> bool {
    &&& m.dim == 4
    &&& forall|i: int, j: int|
        0 <= i < 4 && 0 <= j < 4 ==> m.index(i, j) == (if (i == 0 && j == 0) || (i == 1 && j == 1) || (i == 2
            && j == 3) || (i == 3 && j == 2) {
            c_one()
        } else {
            c_zero()
        })
}

/// Identity on the first two basis vectors, `u` on the last two.
pub open spec fn is_controlled_op(m: Matrix, u: Matrix) -> bool {
    &&& m.dim == 4
    &&& forall|i: int, j: int|
        0 <= i < 4 && 0 <= j < 4 ==> m.index(i, j) == (if 2 <= i && 2 <= j {
            u.index(i - 2, j - 2)
        } else if i == j {
            c_one()
        } else {
            c_zero()
        })
}

/// One at the first diagonal entry, `p` at the second, zero elsewhere.
pub open spec fn is_phase_op(m: Matrix, p: Complex) -> bool {
    &&& m.dim == 2
    &&& m.index(0, 0) == c_one()
    &&& m.index(0, 1) == c_zero()
    &&& m.index(1, 0) == c_zero()
    &&& m.index(1, 1) == p
}

/// A 2x2 matrix from its row-major entries.
fn two_by_two(p00: Complex, p01: Complex, p10: Complex, p11: Complex) -> (m: Matrix)
    requires
        p00.wf(),
        p01.wf(),
        p10.wf(),
        p11.wf(),
    ensures
        m.wf(),
        m.dim == 2,
        m.index(0, 0) == p00,
        m.index(0, 1) == p01,
        m.index(1, 0) == p10,
        m.index(1, 1) == p11,
{
    let mut entries: Vec<Complex> = Vec::new();
    entries.push(p00);
    entries.push(p01);
    entries.push(p10);
    entries.push(p11);
    Matrix::new(2, entries)
}

/// A 4x4 matrix from its row-major entries.
fn four_by_four(rows: [Complex; 16]) -> (m: Matrix)
    requires
        forall|k: int| 0 <= k < 16 ==> rows@[k].wf(),
    ensures
        m.wf(),
        m.dim == 4,
        forall|i: int, j: int| 0 <= i < 4 && 0 <= j < 4 ==> m.index(i, j) == rows@[i * 4 + j],
{
    let mut entries: Vec<Complex> = Vec::new();
    let mut k: usize = 0;
    while k < 16
        invariant
            k <= 16,
            entries@.len() == k as int,
            forall|p: int| 0 <= p < k ==> entries@[p] == rows@[p],
        decreases 16 - k,
    {
        entries.push(rows[k]);
        k = k + 1;
    }
    let m = Matrix::new(4, entries);
    proof {
        assert forall|i: int, j: int| 0 <= i < 4 && 0 <= j < 4 implies m.index(i, j) == rows@[i * 4 + j] by {
            lemma_flat(4, i, j);
        }
    }
    m
}

/// The identity gate: it does not change the state at all.
pub fn identity(width: usize) -> (g: Gate)
    requires
        1 <= width <= MAX_WIDTH,
    ensures
        g.wf(),
        g.width == width,
        is_identity_op(g.operator),
{
    let m = Matrix::identity(crate::ket::Ket::size(width));
    Gate::new(width, m)
}

/// The Hadamard gate: it sends each one-qubit basis state to an equal-weight
/// superposition.
pub fn hadamard() -> (g: Gate)
    ensures
        g.wf(),
        g.width == 1,
        is_hadamard_op(g.operator),
{
    proof {
        reveal_with_fuel(pow2, 3);
    }
    let s = Complex::new(HALF_SQRT2, 0);
    let n = Complex::new(-HALF_SQRT2, 0);
    Gate::new(1, two_by_two(s, s, s, n))
}

/// The Pauli-X gate: a one-qubit bit flip.
pub fn pauli_x() -> (g: Gate)
    ensures
        g.wf(),
        g.width == 1,
        is_pauli_x_op(g.operator),
{
    proof {
        reveal_with_fuel(pow2, 3);
    }
    Gate::new(1, two_by_two(Complex::zero(), Complex::one(), Complex::one(), Complex::zero()))
}

/// The Pauli-Y gate.
pub fn pauli_y() -> (g: Gate)
    ensures
        g.wf(),
        g.width == 1,
        is_pauli_y_op(g.operator),
{
    proof {
        reveal_with_fuel(pow2, 3);
    }
    Gate::new(1, two_by_two(Complex::zero(), Complex::new(0, -SCALE), Complex::i(), Complex::zero()))
}

/// The Pauli-Z gate: a one-qubit phase flip.
pub fn pauli_z() -> (g: Gate)
    ensures
        g.wf(),
        g.width == 1,
        is_pauli_z_op(g.operator),
{
    proof {
        reveal_with_fuel(pow2, 3);
    }
    Gate::new(1, two_by_two(Complex::one(), Complex::zero(), Complex::zero(), Complex::new(-SCALE, 0)))
}

/// A one-qubit phase-shift gate: `phase` is the unit complex factor applied
/// to the upper basis state.  The caller converts an angle to that factor.
pub fn phase_shift(phase: Complex) -> (g: Gate)
    requires
        phase.wf(),
    ensures
        g.wf(),
        g.width == 1,
        is_phase_op(g.operator, phase),
{
    proof {
        reveal_with_fuel(pow2, 3);
    }
    Gate::new(1, two_by_two(Complex::one(), Complex::zero(), Complex::zero(), phase))
}

/// The two-qubit swap gate: it exchanges the values of the two qubits.
pub fn swap() -> (g: Gate)
    ensures
        g.wf(),
        g.width == 2,
        is_swap_op(g.operator),
{
    proof {
        reveal_with_fuel(pow2, 3);
    }
    let o = Complex::one();
    let z = Complex::zero();
    let m = four_by_four([o, z, z, z, z, z, o, z, z, o, z, z, z, z, z, o]);
    Gate::new(2, m)
}

/// The two-qubit square root of swap.
pub fn sqrt_swap() -> (g: Gate)
    ensures
        g.wf(),
        g.width == 2,
        is_sqrt_swap_op(g.operator),
{
    proof {
        reveal_with_fuel(pow2, 3);
    }
    let o = Complex::one();
    let z = Complex::zero();
    let a = Complex::new(HALF_ONE, HALF_ONE);
    let b = Complex::new(HALF_ONE, -HALF_ONE);
    let m = four_by_four([o, z, z, z, z, a, b, z, z, b, a, z, z, z, z, o]);
    Gate::new(2, m)
}

/// The two-qubit controlled-not gate: it flips the second qubit when the
/// first is set.
pub fn controlled_not() -> (g: Gate)
    ensures
        g.wf(),
        g.width == 2,
        is_cnot_op(g.operator),
{
    proof {
        reveal_with_fuel(pow2, 3);
    }
    let o = Complex::one();
    let z = Complex::zero();
    let m = four_by_four([o, z, z, z, z, o, z, z, z, z, z, o, z, z, o, z]);
    Gate::new(2, m)
}

/// A two-qubit controlled gate: it applies `u` to the second qubit when the
/// first is set, by embedding `u` into an identity-seeded template.  The
/// supplied matrix must be 2x2.
pub fn controlled(u: &Matrix) -> (g: Gate)
    requires
        u.wf(),
        u.dim == 2,
    ensures
        g.wf(),
        g.width == 2,
        is_controlled_op(g.operator, *u),
{
    proof {
        reveal_with_fuel(pow2, 3);
    }
    let o = Complex::one();
    let z = Complex::zero();
    let mut m = four_by_four([o, z, z, z, z, o, z, z, z, z, z, z, z, z, z, z]);
    m.embed(u, 2, 2);
    Gate::new(2, m)
}

/// Identity on the first two basis vectors, Pauli-Y on the last two.
pub open spec fn is_controlled_y_op(m: Matrix) -> bool {
    &&& m.dim == 4
    &&& forall|i: int, j: int|
        0 <= i < 4 && 0 <= j < 4 ==> m.index(i, j) == (if (i == 0 && j == 0) || (i == 1 && j == 1) {
            c_one()
        } else if i == 2 && j == 3 {
            Complex { re: 0, im: (-SCALE) as i64 }
        } else if i == 3 && j == 2 {
            c_i()
        } else {
            c_zero()
        })
}

/// Identity on the first three basis vectors, minus one on the last.
pub open spec fn is_controlled_z_op(m: Matrix) -> bool {
    &&& m.dim == 4
    &&& forall|i: int, j: int|
        0 <= i < 4 && 0 <= j < 4 ==> m.index(i, j) == (if (i == 0 && j == 0) || (i == 1 && j == 1) || (i == 2
            && j == 2) {
            c_one()
        } else if i == 3 && j == 3 {
            Complex { re: (-SCALE) as i64, im: 0 }
        } else {
            c_zero()
        })
}

/// The two-qubit controlled-X gate; it equals the controlled-not gate.
pub fn controlled_x() -> (g: Gate)
    ensures
        g.wf(),
        g.width == 2,
        is_cnot_op(g.operator),
{
    let p = pauli_x();
    controlled(p.matrix())
}

/// The two-qubit controlled-Y gate.
pub fn controlled_y() -> (g: Gate)
    ensures
        g.wf(),
        g.width == 2,
        is_controlled_y_op(g.operator),
{
    let p = pauli_y();
    controlled(p.matrix())
}

/// The two-qubit controlled-Z gate.
pub fn controlled_z() -> (g: Gate)
    ensures
        g.wf(),
        g.width == 2,
        is_controlled_z_op(g.operator),
{
    let p = pauli_z();
    controlled(p.matrix())
}

} // verus!
