//! A quantum gate: an operator matrix bound to a qubit width.
//!
//! The operator of a gate of width `w` must have dimension `2^w`.  Physical
//! validity additionally requires the operator to be unitary; that is a
//! caller obligation and is not enforced by construction.

use vstd::prelude::*;

use crate::matrix::{matrix_approx, Matrix};

verus! {

/// Largest accepted register or gate width, in qubits.
pub const MAX_WIDTH: usize = 12;

/// Two to the power `n`.
pub open spec fn pow2(n: nat) -> nat
    decreases n,
{
    if n == 0 {
        1
    } else {
        2 * pow2((n - 1) as nat)
    }
}

/// Compute `2^n` for a small width.
pub fn pow2_exec(n: usize) -> (r: usize)
    requires
        n <= MAX_WIDTH,
    ensures
        r == pow2(n as nat),
        1 <= r <= 4096,
{
    let mut p: usize = 1;
    let mut i: usize = 0;
    while i < n
        invariant
            i <= n,
            n <= MAX_WIDTH,
            p == pow2(i as nat),
            1 <= p <= 4096,
        decreases n - i,
    {
        proof {
            lemma_pow2_monotone(i as nat + 1, MAX_WIDTH as nat);
            lemma_pow2_small();
        }
        p = p * 2;
        i = i + 1;
    }
    p
}

/// The value of `pow2` at the largest accepted width.
pub proof fn lemma_pow2_small()
    ensures
        pow2(MAX_WIDTH as nat) == 4096,
{
    reveal_with_fuel(pow2, 13);
}

/// `pow2` does not decrease.
pub proof fn lemma_pow2_monotone(a: nat, b: nat)
    requires
        a <= b,
    ensures
        pow2(a) <= pow2(b),
    decreases b,
{
    if a < b {
        lemma_pow2_monotone(a, (b - 1) as nat);
    }
}

/// `2^(a + b) == 2^a * 2^b`.
pub proof fn lemma_pow2_adds(a: nat, b: nat)
    ensures
        pow2(a + b) == pow2(a) * pow2(b),
    decreases a,
{
    if a == 0 {
        assert(pow2(b) == 1 * pow2(b)) by (nonlinear_arith);
    } else {
        lemma_pow2_adds((a - 1) as nat, b);
        assert(2 * (pow2((a - 1) as nat) * pow2(b)) == (2 * pow2((a - 1) as nat)) * pow2(b))
            by (nonlinear_arith);
    }
}

/// An immutable (width, operator) pair.
#[derive(Clone, Debug)]
pub struct Gate {
    pub width: usize,
    pub operator: Matrix,
}

impl Gate {
    pub open spec fn wf(self) -> bool {
        &&& 1 <= self.width <= MAX_WIDTH
        &&& self.operator.wf()
        &&& self.operator.dim == pow2(self.width as nat)
    }

    /// Store the width and operator verbatim.
    pub fn new(width: usize, operator: Matrix) -> (g: Gate)
        requires
            1 <= width <= MAX_WIDTH,
            operator.wf(),
            operator.dim == pow2(width as nat),
        ensures
            g.wf(),
            g.width == width,
            g.operator == operator,
    {
        Gate { width, operator }
    }

    pub fn width(&self) -> (r: usize)
        ensures
            r == self.width,
    {
        self.width
    }

    pub fn matrix(&self) -> (r: &Matrix)
        ensures
            r == &self.operator,
    {
        &self.operator
    }
}

impl PartialEq for Gate {
    /// Same width and epsilon-equal operators.
    fn eq(&self, other: &Gate) -> (r: bool) {
        self.width == other.width && self.operator == other.operator
    }
}

impl vstd::std_specs::cmp::PartialEqSpecImpl for Gate {
    open spec fn obeys_eq_spec() -> bool {
        true
    }

    open spec fn eq_spec(&self, other: &Gate) -> bool {
        self.width == other.width && matrix_approx(self.operator, other.operator)
    }
}

} // verus!
