//! The library's laws, stated and proved over the spec-level models.
//!
//! Each public proof function here states a property of the operations as a
//! whole: what the identity gate does to any state, what the named gates do
//! to basis states and to the recorded classical value, that the self-inverse
//! gates compose to the identity, that a controlled bit flip is the
//! controlled-not gate, and that embedding then extracting a block returns
//! it unchanged.

use vstd::prelude::*;

use crate::complex::{approx, c_one, c_zero, mul_im_raw, mul_re_raw, nsq, Complex, SCALE};
use crate::computer::{basis, lemma_pick_from, pick, weight_sum};
use crate::gate::Gate;
use crate::gates::{
    is_cnot_op, is_controlled_op, is_hadamard_op, is_identity_op, is_pauli_x_op, is_pauli_y_op,
    is_pauli_z_op, is_swap_op, HALF_SQRT2,
};
use crate::ket::{apply_entry, expand_index, vdot_im, vdot_re};
use crate::matrix::{dot_im, dot_re, lemma_flat, matrix_approx, prod_entry, Matrix};

verus! {

/// Expanding with the one-dimensional identity changes no entry.
pub proof fn lemma_expand_full(g: Gate, i: int, j: int)
    ensures
        expand_index(g, 1, i, j) == g.operator.index(i, j),
{
    vstd::arithmetic::div_mod::lemma_div_basics(i);
    vstd::arithmetic::div_mod::lemma_div_basics(j);
    vstd::arithmetic::div_mod::lemma_fundamental_div_mod(i, 1);
    vstd::arithmetic::div_mod::lemma_fundamental_div_mod(j, 1);
}

/// A dot product against a row whose entries vanish away from one column
/// reduces to that column's term.
proof fn lemma_vdot_single_column(g: Gate, m: int, v: Seq<Complex>, i: int, j0: int, k: int)
    requires
        forall|j: int| 0 <= j < k && j != j0 ==> #[trigger] expand_index(g, m, i, j) == c_zero(),
    ensures
        vdot_re(g, m, v, i, k) == (if 0 <= j0 < k {
            mul_re_raw(expand_index(g, m, i, j0), v[j0])
        } else {
            0
        }),
        vdot_im(g, m, v, i, k) == (if 0 <= j0 < k {
            mul_im_raw(expand_index(g, m, i, j0), v[j0])
        } else {
            0
        }),
    decreases k,
{
    if k > 0 {
        lemma_vdot_single_column(g, m, v, i, j0, k - 1);
        if k - 1 != j0 {
            crate::complex::lemma_mul_zero(v[k - 1]);
        }
    }
}

/// A dot product against a vector that vanishes away from one index reduces
/// to that index's term.
proof fn lemma_vdot_single_index(g: Gate, m: int, v: Seq<Complex>, i: int, b: int, k: int)
    requires
        forall|j: int| 0 <= j < k && j != b ==> v[j] == c_zero(),
    ensures
        vdot_re(g, m, v, i, k) == (if 0 <= b < k {
            mul_re_raw(expand_index(g, m, i, b), v[b])
        } else {
            0
        }),
        vdot_im(g, m, v, i, k) == (if 0 <= b < k {
            mul_im_raw(expand_index(g, m, i, b), v[b])
        } else {
            0
        }),
    decreases k,
{
    if k > 0 {
        lemma_vdot_single_index(g, m, v, i, b, k - 1);
        if k - 1 != b {
            crate::complex::lemma_mul_zero(expand_index(g, m, i, k - 1));
        }
    }
}

/// Applying the identity gate leaves every amplitude unchanged, for any
/// register dimension that is a multiple of the identity's.
pub proof fn lemma_identity_apply(g: Gate, m: int, v: Seq<Complex>)
    requires
        g.wf(),
        is_identity_op(g.operator),
        1 <= m,
        v.len() == m * (g.operator.dim as int),
        forall|k: int| 0 <= k < v.len() ==> (#[trigger] v[k]).wf(),
    ensures
        forall|i: int| 0 <= i < v.len() ==> apply_entry(g, m, v, i) == v[i],
{
    let d = g.operator.dim as int;
    let len = v.len() as int;
    assert(m * d == d * m) by (nonlinear_arith);
    assert forall|i: int| 0 <= i < len implies apply_entry(g, m, v, i) == v[i] by {
        vstd::arithmetic::div_mod::lemma_multiply_divide_lt(i, m, d);
        vstd::arithmetic::div_mod::lemma_div_pos_is_pos(i, m);
        assert forall|j: int| 0 <= j < len && j != i implies #[trigger] expand_index(g, m, i, j)
            == c_zero() by {
            if i % m == j % m {
                vstd::arithmetic::div_mod::lemma_multiply_divide_lt(j, m, d);
                vstd::arithmetic::div_mod::lemma_div_pos_is_pos(j, m);
                vstd::arithmetic::div_mod::lemma_fundamental_div_mod(i, m);
                vstd::arithmetic::div_mod::lemma_fundamental_div_mod(j, m);
                assert(i / m != j / m);
            }
        }
        lemma_vdot_single_column(g, m, v, i, i, len);
        crate::complex::lemma_mul_one(v[i]);
    }
}

/// Applying a full-width gate to a basis state reads off the corresponding
/// column of the operator.
pub proof fn lemma_apply_to_basis(g: Gate, b: int)
    requires
        g.wf(),
        0 <= b < g.operator.dim,
    ensures
        forall|i: int|
            0 <= i < g.operator.dim ==> apply_entry(g, 1, basis(g.operator.dim as int, b), i)
                == g.operator.index(i, b),
{
    let d = g.operator.dim as int;
    let v = basis(d, b);
    assert forall|i: int| 0 <= i < d implies apply_entry(g, 1, v, i) == g.operator.index(i, b) by {
        lemma_vdot_single_index(g, 1, v, i, b, d);
        lemma_expand_full(g, i, b);
        lemma_flat(d, i, b);
        crate::complex::lemma_mul_one(g.operator.index(i, b));
    }
}

/// On a basis state the Born rule is deterministic: every draw selects the
/// index that carries the whole weight.
pub proof fn lemma_basis_weight_sum(len: int, t: int, j: int)
    requires
        0 <= t < len,
        0 <= j <= len,
    ensures
        weight_sum(basis(len, t), j) == (if j <= t {
            0
        } else {
            SCALE as int
        }),
    decreases j,
{
    if j > 0 {
        lemma_basis_weight_sum(len, t, j - 1);
    }
}

/// Every draw against a basis state's distribution selects its index.
pub proof fn lemma_pick_basis(len: int, t: int, r: int)
    requires
        0 <= t < len,
        0 <= r < weight_sum(basis(len, t), len),
    ensures
        pick(basis(len, t), r) == t,
{
    let v = basis(len, t);
    lemma_basis_weight_sum(len, t, len);
    lemma_basis_weight_sum(len, t, t + 1);
    assert forall|j: int| 1 <= j <= t implies #[trigger] weight_sum(v, j) <= r by {
        lemma_basis_weight_sum(len, t, j);
    }
    lemma_pick_from(v, r, 0, t);
}

/// Pauli-X truth table: it sends each one-qubit basis state to the other,
/// and the collapsed classical value is the flipped bit whatever the draw.
pub proof fn lemma_pauli_x_truth(g: Gate, b: int, r: int)
    requires
        g.wf(),
        g.width == 1,
        is_pauli_x_op(g.operator),
        0 <= b < 2,
        0 <= r < weight_sum(basis(2, 1 - b), 2),
    ensures
        forall|i: int| 0 <= i < 2 ==> apply_entry(g, 1, basis(2, b), i) == basis(2, 1 - b)[i],
        pick(basis(2, 1 - b), r) == 1 - b,
{
    lemma_apply_to_basis(g, b);
    lemma_pick_basis(2, 1 - b, r);
}

/// Pauli-Z truth table at the classical-value level: the basis state keeps
/// its index, though the upper state's amplitude changes sign.
pub proof fn lemma_pauli_z_truth(g: Gate, b: int, r: int)
    requires
        g.wf(),
        g.width == 1,
        is_pauli_z_op(g.operator),
        0 <= b < 2,
        0 <= r < weight_sum(Seq::new(2, |i: int| apply_entry(g, 1, basis(2, b), i)), 2),
    ensures
        apply_entry(g, 1, basis(2, b), 0) == (if b == 0 {
            c_one()
        } else {
            c_zero()
        }),
        apply_entry(g, 1, basis(2, b), 1) == (if b == 1 {
            Complex { re: (-SCALE) as i64, im: 0 }
        } else {
            c_zero()
        }),
        pick(Seq::new(2, |i: int| apply_entry(g, 1, basis(2, b), i)), r) == b,
{
    lemma_apply_to_basis(g, b);
    let s = Seq::new(2, |i: int| apply_entry(g, 1, basis(2, b), i));
    assert(s[0] == g.operator.index(0, b));
    assert(s[1] == g.operator.index(1, b));
    if b == 0 {
        assert(s =~= basis(2, 0));
        lemma_pick_basis(2, 0, r);
    } else {
        assert(s[0] == c_zero() && s[1] == (Complex { re: (-SCALE) as i64, im: 0 }));
        reveal_with_fuel(weight_sum, 3);
        assert(weight_sum(s, 1) == nsq(c_zero()));
        lemma_pick_from(s, r, 0, 1);
    }
}

/// The basis index reached by the controlled-not gate: the low bit flips
/// exactly when the high bit is set.
pub open spec fn cnot_map(b: int) -> int {
    if b == 2 {
        3
    } else if b == 3 {
        2
    } else {
        b
    }
}

/// Controlled-not truth table over all four two-qubit basis states, with
/// the collapsed classical value it leads to.
pub proof fn lemma_controlled_not_truth(g: Gate, b: int, r: int)
    requires
        g.wf(),
        g.width == 2,
        is_cnot_op(g.operator),
        0 <= b < 4,
        0 <= r < weight_sum(basis(4, cnot_map(b)), 4),
    ensures
        forall|i: int| 0 <= i < 4 ==> apply_entry(g, 1, basis(4, b), i) == basis(4, cnot_map(b))[i],
        pick(basis(4, cnot_map(b)), r) == cnot_map(b),
{
    lemma_apply_to_basis(g, b);
    lemma_pick_basis(4, cnot_map(b), r);
    let t = cnot_map(b);
    assert forall|i: int| 0 <= i < 4 implies apply_entry(g, 1, basis(4, b), i) == basis(4, t)[i] by {
        assert(apply_entry(g, 1, basis(4, b), i) == g.operator.index(i, b));
        if i == 0 {
            assert(g.operator.index(0, b) == (if t == 0 { c_one() } else { c_zero() }));
        } else if i == 1 {
            assert(g.operator.index(1, b) == (if t == 1 { c_one() } else { c_zero() }));
        } else if i == 2 {
            assert(g.operator.index(2, b) == (if t == 2 { c_one() } else { c_zero() }));
        } else {
            assert(g.operator.index(3, b) == (if t == 3 { c_one() } else { c_zero() }));
        }
    }
}

/// Pauli-X composed with itself is the identity, exactly.
pub proof fn lemma_pauli_x_involution(a: Matrix, b: Matrix)
    requires
        a.wf(),
        b.wf(),
        is_pauli_x_op(a),
        is_pauli_x_op(b),
    ensures
        forall|i: int, j: int|
            0 <= i < 2 && 0 <= j < 2 ==> prod_entry(a, b, i, j) == (if i == j {
                c_one()
            } else {
                c_zero()
            }),
{
    reveal_with_fuel(dot_re, 3);
    reveal_with_fuel(dot_im, 3);
    assert(prod_entry(a, b, 0, 0) == c_one());
    assert(prod_entry(a, b, 0, 1) == c_zero());
    assert(prod_entry(a, b, 1, 0) == c_zero());
    assert(prod_entry(a, b, 1, 1) == c_one());
}

/// Pauli-Y composed with itself is the identity, exactly.
pub proof fn lemma_pauli_y_involution(a: Matrix, b: Matrix)
    requires
        a.wf(),
        b.wf(),
        is_pauli_y_op(a),
        is_pauli_y_op(b),
    ensures
        forall|i: int, j: int|
            0 <= i < 2 && 0 <= j < 2 ==> prod_entry(a, b, i, j) == (if i == j {
                c_one()
            } else {
                c_zero()
            }),
{
    reveal_with_fuel(dot_re, 3);
    reveal_with_fuel(dot_im, 3);
    assert(prod_entry(a, b, 0, 0) == c_one());
    assert(prod_entry(a, b, 0, 1) == c_zero());
    assert(prod_entry(a, b, 1, 0) == c_zero());
    assert(prod_entry(a, b, 1, 1) == c_one());
}

/// Pauli-Z composed with itself is the identity, exactly.
pub proof fn lemma_pauli_z_involution(a: Matrix, b: Matrix)
    requires
        a.wf(),
        b.wf(),
        is_pauli_z_op(a),
        is_pauli_z_op(b),
    ensures
        forall|i: int, j: int|
            0 <= i < 2 && 0 <= j < 2 ==> prod_entry(a, b, i, j) == (if i == j {
                c_one()
            } else {
                c_zero()
            }),
{
    reveal_with_fuel(dot_re, 3);
    reveal_with_fuel(dot_im, 3);
    assert(prod_entry(a, b, 0, 0) == c_one());
    assert(prod_entry(a, b, 0, 1) == c_zero());
    assert(prod_entry(a, b, 1, 0) == c_zero());
    assert(prod_entry(a, b, 1, 1) == c_one());
}

/// Hadamard composed with itself is the identity: the fixed-point rounding
/// of its entries cancels exactly.
pub proof fn lemma_hadamard_involution(a: Matrix, b: Matrix)
    requires
        a.wf(),
        b.wf(),
        is_hadamard_op(a),
        is_hadamard_op(b),
    ensures
        forall|i: int, j: int|
            0 <= i < 2 && 0 <= j < 2 ==> prod_entry(a, b, i, j) == (if i == j {
                c_one()
            } else {
                c_zero()
            }),
{
    reveal_with_fuel(dot_re, 3);
    reveal_with_fuel(dot_im, 3);
    assert(prod_entry(a, b, 0, 0) == c_one());
    assert(prod_entry(a, b, 0, 1) == c_zero());
    assert(prod_entry(a, b, 1, 0) == c_zero());
    assert(prod_entry(a, b, 1, 1) == c_one());
}

/// Swap composed with itself is the identity, exactly.
#[verifier::rlimit(60)]
pub proof fn lemma_swap_involution(a: Matrix, b: Matrix)
    requires
        a.wf(),
        b.wf(),
        is_swap_op(a),
        is_swap_op(b),
    ensures
        forall|i: int, j: int|
            0 <= i < 4 && 0 <= j < 4 ==> prod_entry(a, b, i, j) == (if i == j {
                c_one()
            } else {
                c_zero()
            }),
{
    assert(a.index(0, 0) == c_one());
    assert(b.index(0, 0) == c_one());
    assert(a.index(0, 1) == c_zero());
    assert(b.index(0, 1) == c_zero());
    assert(a.index(0, 2) == c_zero());
    assert(b.index(0, 2) == c_zero());
    assert(a.index(0, 3) == c_zero());
    assert(b.index(0, 3) == c_zero());
    assert(a.index(1, 0) == c_zero());
    assert(b.index(1, 0) == c_zero());
    assert(a.index(1, 1) == c_zero());
    assert(b.index(1, 1) == c_zero());
    assert(a.index(1, 2) == c_one());
    assert(b.index(1, 2) == c_one());
    assert(a.index(1, 3) == c_zero());
    assert(b.index(1, 3) == c_zero());
    assert(a.index(2, 0) == c_zero());
    assert(b.index(2, 0) == c_zero());
    assert(a.index(2, 1) == c_one());
    assert(b.index(2, 1) == c_one());
    assert(a.index(2, 2) == c_zero());
    assert(b.index(2, 2) == c_zero());
    assert(a.index(2, 3) == c_zero());
    assert(b.index(2, 3) == c_zero());
    assert(a.index(3, 0) == c_zero());
    assert(b.index(3, 0) == c_zero());
    assert(a.index(3, 1) == c_zero());
    assert(b.index(3, 1) == c_zero());
    assert(a.index(3, 2) == c_zero());
    assert(b.index(3, 2) == c_zero());
    assert(a.index(3, 3) == c_one());
    assert(b.index(3, 3) == c_one());
    reveal_with_fuel(dot_re, 5);
    reveal_with_fuel(dot_im, 5);
    assert(prod_entry(a, b, 0, 0) == c_one());
    assert(prod_entry(a, b, 0, 1) == c_zero());
    assert(prod_entry(a, b, 0, 2) == c_zero());
    assert(prod_entry(a, b, 0, 3) == c_zero());
    assert(prod_entry(a, b, 1, 0) == c_zero());
    assert(prod_entry(a, b, 1, 1) == c_one());
    assert(prod_entry(a, b, 1, 2) == c_zero());
    assert(prod_entry(a, b, 1, 3) == c_zero());
    assert(prod_entry(a, b, 2, 0) == c_zero());
    assert(prod_entry(a, b, 2, 1) == c_zero());
    assert(prod_entry(a, b, 2, 2) == c_one());
    assert(prod_entry(a, b, 2, 3) == c_zero());
    assert(prod_entry(a, b, 3, 0) == c_zero());
    assert(prod_entry(a, b, 3, 1) == c_zero());
    assert(prod_entry(a, b, 3, 2) == c_zero());
    assert(prod_entry(a, b, 3, 3) == c_one());
}

/// A controlled bit flip is the controlled-not gate, entry for entry, and
/// therefore also under the matrices' epsilon-equality.
pub proof fn lemma_controlled_matches_controlled_not(c: Matrix, u: Matrix, n: Matrix)
    requires
        c.wf(),
        n.wf(),
        is_controlled_op(c, u),
        is_pauli_x_op(u),
        is_cnot_op(n),
    ensures
        forall|i: int, j: int| 0 <= i < 4 && 0 <= j < 4 ==> c.index(i, j) == n.index(i, j),
        matrix_approx(c, n),
{
    assert forall|k: int| 0 <= k < 16 implies approx(c.entries@[k], n.entries@[k]) by {
        vstd::arithmetic::div_mod::lemma_fundamental_div_mod(k, 4);
        vstd::arithmetic::div_mod::lemma_multiply_divide_lt(k, 4, 4);
        vstd::arithmetic::div_mod::lemma_div_pos_is_pos(k, 4);
        let i = k / 4;
        let j = k % 4;
        assert(c.index(i, j) == n.index(i, j));
    }
}

/// Embedding a block and reading the same block back returns the original
/// submatrix unchanged.
pub proof fn lemma_embed_extract_roundtrip(
    after: Matrix,
    sub: Matrix,
    back: Matrix,
    row_offset: int,
    col_offset: int,
)
    requires
        sub.wf(),
        after.wf(),
        back.wf(),
        0 <= row_offset,
        0 <= col_offset,
        row_offset + sub.dim <= after.dim,
        col_offset + sub.dim <= after.dim,
        back.dim == sub.dim,
        forall|i: int, j: int|
            row_offset <= i < row_offset + sub.dim && col_offset <= j < col_offset + sub.dim
                ==> #[trigger] after.index(i, j) == sub.index(i - row_offset, j - col_offset),
        forall|i: int, j: int|
            0 <= i < sub.dim && 0 <= j < sub.dim ==> #[trigger] back.index(i, j) == after.index(
                row_offset + i,
                col_offset + j,
            ),
    ensures
        forall|i: int, j: int| 0 <= i < sub.dim && 0 <= j < sub.dim ==> back.index(i, j) == sub.index(i, j),
        matrix_approx(back, sub),
{
    let sd = sub.dim as int;
    assert forall|k: int| 0 <= k < back.entries@.len() implies approx(back.entries@[k], sub.entries@[k]) by {
        vstd::arithmetic::div_mod::lemma_fundamental_div_mod(k, sd);
        vstd::arithmetic::div_mod::lemma_multiply_divide_lt(k, sd, sd);
        vstd::arithmetic::div_mod::lemma_div_pos_is_pos(k, sd);
        let i = k / sd;
        let j = k % sd;
        assert(sd * i == i * sd) by (nonlinear_arith);
        assert(back.index(i, j) == sub.index(i, j));
    }
}

/// The bit-flip gate permutes the two amplitudes, so it preserves the total
/// squared magnitude exactly.
pub proof fn lemma_pauli_x_norm(g: Gate, v: Seq<Complex>)
    requires
        g.wf(),
        g.width == 1,
        is_pauli_x_op(g.operator),
        v.len() == 2,
        forall|k: int| 0 <= k < 2 ==> (#[trigger] v[k]).wf(),
    ensures
        weight_sum(Seq::new(2, |i: int| apply_entry(g, 1, v, i)), 2) == weight_sum(v, 2),
{
    assert forall|i: int| 0 <= i < 2 implies apply_entry(g, 1, v, i) == v[1 - i] by {
        reveal_with_fuel(vdot_re, 3);
        reveal_with_fuel(vdot_im, 3);
        lemma_expand_full(g, i, 0);
        lemma_expand_full(g, i, 1);
        crate::complex::lemma_mul_one(v[0]);
        crate::complex::lemma_mul_one(v[1]);
        crate::complex::lemma_mul_zero(v[0]);
        crate::complex::lemma_mul_zero(v[1]);
    }
    let s = Seq::new(2, |i: int| apply_entry(g, 1, v, i));
    reveal_with_fuel(weight_sum, 3);
    assert(s[0] == v[1] && s[1] == v[0]);
}

/// The phase-flip gate changes only a sign, so it preserves the total
/// squared magnitude exactly.
pub proof fn lemma_pauli_z_norm(g: Gate, v: Seq<Complex>)
    requires
        g.wf(),
        g.width == 1,
        is_pauli_z_op(g.operator),
        v.len() == 2,
        forall|k: int| 0 <= k < 2 ==> (#[trigger] v[k]).wf(),
    ensures
        weight_sum(Seq::new(2, |i: int| apply_entry(g, 1, v, i)), 2) == weight_sum(v, 2),
{
    assert forall|i: int| 0 <= i < 2 implies apply_entry(g, 1, v, i) == (if i == 0 {
        v[0]
    } else {
        Complex { re: (-v[1].re) as i64, im: (-v[1].im) as i64 }
    }) by {
        reveal_with_fuel(vdot_re, 3);
        reveal_with_fuel(vdot_im, 3);
        lemma_expand_full(g, i, 0);
        lemma_expand_full(g, i, 1);
        crate::complex::lemma_mul_one(v[0]);
        crate::complex::lemma_mul_zero(v[0]);
        crate::complex::lemma_mul_zero(v[1]);
        lemma_mul_neg_one(v[1]);
    }
    assert(nsq(Complex { re: (-v[1].re) as i64, im: (-v[1].im) as i64 }) == nsq(v[1])) by {
        assert((-v[1].re) * (-v[1].re) == v[1].re * v[1].re) by (nonlinear_arith);
        assert((-v[1].im) * (-v[1].im) == v[1].im * v[1].im) by (nonlinear_arith);
    }
    let s = Seq::new(2, |i: int| apply_entry(g, 1, v, i));
    reveal_with_fuel(weight_sum, 3);
    assert(s[0] == v[0]);
    assert(nsq(s[1]) == nsq(v[1]));
}

/// On a basis state the Hadamard gate preserves the total squared
/// magnitude exactly: the two half weights add back to one.
pub proof fn lemma_hadamard_norm_on_basis(g: Gate, b: int)
    requires
        g.wf(),
        g.width == 1,
        is_hadamard_op(g.operator),
        0 <= b < 2,
    ensures
        weight_sum(Seq::new(2, |i: int| apply_entry(g, 1, basis(2, b), i)), 2) == weight_sum(
            basis(2, b),
            2,
        ),
{
    lemma_apply_to_basis(g, b);
    lemma_basis_weight_sum(2, b, 2);
    let s = Seq::new(2, |i: int| apply_entry(g, 1, basis(2, b), i));
    reveal_with_fuel(weight_sum, 3);
    assert(s[0] == g.operator.index(0, b));
    assert(s[1] == g.operator.index(1, b));
    assert((HALF_SQRT2 as int) * (HALF_SQRT2 as int) == 2147488281) by (nonlinear_arith);
    assert((-HALF_SQRT2 as int) * (-HALF_SQRT2 as int) == 2147488281) by (nonlinear_arith);
    assert(nsq(Complex { re: HALF_SQRT2, im: 0 }) == 32768);
    assert(nsq(Complex { re: (-HALF_SQRT2) as i64, im: 0 }) == 32768);
}

/// Multiplying by minus one negates both components, exactly.
proof fn lemma_mul_neg_one(c: Complex)
    ensures
        mul_re_raw(Complex { re: (-SCALE) as i64, im: 0 }, c) == -c.re,
        mul_im_raw(Complex { re: (-SCALE) as i64, im: 0 }, c) == -c.im,
{
    crate::complex::lemma_scale_down_exact(-c.re);
    crate::complex::lemma_scale_down_exact(-c.im);
    assert((-(SCALE as int)) * c.re == (-c.re) * (SCALE as int)) by (nonlinear_arith);
    assert((-(SCALE as int)) * c.im == (-c.im) * (SCALE as int)) by (nonlinear_arith);
    assert(0 * c.re == 0 && 0 * c.im == 0) by (nonlinear_arith);
}

} // verus!
