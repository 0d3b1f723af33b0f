//! The quantum computer: one register, its lifecycle, and measurement.
//!
//! A computer of width `n` owns a ket of `2^n` amplitudes and moves through
//! two states: initialized (no classical outcome yet) and collapsed (an
//! outcome recorded in `observed`).  `collapse` draws a uniform random value
//! below the total squared magnitude and selects the smallest basis index
//! whose cumulative weight exceeds the draw — the Born rule, with the last
//! index absorbing any rounding shortfall.

use vstd::prelude::*;

use crate::complex::{c_one, c_zero, nsq, Complex};
use crate::gate::{lemma_pow2_adds, lemma_pow2_monotone, pow2, pow2_exec, Gate, MAX_WIDTH};
use crate::ket::{apply_entry, Ket};

verus! {

/// The basis vector of length `len` whose single unit amplitude sits at `t`.
pub open spec fn basis(len: int, t: int) -> Seq<Complex> {
    Seq::new(len as nat, |i: int| if i == t { c_one() } else { c_zero() })
}

/// Sum of the squared magnitudes of the first `k` amplitudes.
pub open spec fn weight_sum(v: Seq<Complex>, k: int) -> int
    decreases k,
{
    if k <= 0 {
        0
    } else {
        weight_sum(v, k - 1) + nsq(v[k - 1])
    }
}

/// The smallest index at or after `i` whose cumulative weight exceeds `r`,
/// clamped to the last index.
pub open spec fn pick_rec(v: Seq<Complex>, r: int, i: int) -> int
    decreases v.len() - i,
{
    if i >= v.len() - 1 {
        v.len() - 1
    } else if weight_sum(v, i + 1) > r {
        i
    } else {
        pick_rec(v, r, i + 1)
    }
}

/// The basis index that a draw of `r` selects under the Born rule.
pub open spec fn pick(v: Seq<Complex>, r: int) -> int {
    pick_rec(v, r, 0)
}

/// A register owning its state vector and an optional recorded outcome.
#[derive(Clone, Debug)]
pub struct QuantumComputer {
    pub width: usize,
    pub state: Ket,
    pub observed: Option<usize>,
}

impl QuantumComputer {
    pub open spec fn wf(self) -> bool {
        &&& 1 <= self.width <= MAX_WIDTH
        &&& self.state.wf()
        &&& self.state.elements@.len() == pow2(self.width as nat)
        &&& match self.observed {
            Some(t) => t < self.state.elements@.len(),
            None => true,
        }
    }

    /// A fresh register in the all-zeros basis state.
    pub fn new(width: usize) -> (r: QuantumComputer)
        requires
            1 <= width <= MAX_WIDTH,
        ensures
            r.wf(),
            r.width == width,
            r.observed is None,
            r.state.elements@ == basis(pow2(width as nat) as int, 0),
    {
        let n = pow2_exec(width);
        let mut state = Ket::new(n);
        state.set(0, Complex::one());
        proof {
            assert(state.elements@ =~= basis(n as int, 0));
        }
        QuantumComputer { width, state, observed: None }
    }

    /// Set the state to the basis vector at index `value` and forget any
    /// recorded outcome.
    pub fn initialize(&mut self, value: usize)
        requires
            old(self).wf(),
            (value as int) < pow2(old(self).width as nat),
        ensures
            final (self).wf(),
            final (self).width == old(self).width,
            final (self).observed is None,
            final (self).state.elements@ == basis(pow2(old(self).width as nat) as int, value as int),
    {
        let n = pow2_exec(self.width);
        let mut state = Ket::new(n);
        state.set(value, Complex::one());
        proof {
            assert(state.elements@ =~= basis(n as int, value as int));
        }
        self.state = state;
        self.observed = None;
    }

    /// Apply a gate to the register; valid only before a collapse.
    pub fn apply(&mut self, gate: &Gate)
        requires
            old(self).wf(),
            old(self).observed is None,
            gate.wf(),
            gate.width <= old(self).width,
        ensures
            final (self).wf(),
            final (self).width == old(self).width,
            final (self).observed is None,
            final (self).state.elements@.len() == old(self).state.elements@.len(),
            forall|i: int|
                0 <= i < old(self).state.elements@.len() ==> final (self).state.elements@[i] == apply_entry(
                    *gate,
                    old(self).state.elements@.len() as int / (pow2(gate.width as nat) as int),
                    old(self).state.elements@,
                    i,
                ),
    {
        proof {
            lemma_pow2_monotone(gate.width as nat, self.width as nat);
            lemma_pow2_adds((self.width - gate.width) as nat, gate.width as nat);
            vstd::arithmetic::div_mod::lemma_mod_multiples_basic(
                pow2((self.width - gate.width) as nat) as int,
                pow2(gate.width as nat) as int,
            );
        }
        self.state.apply(gate);
    }

    /// Measure the register: draw from the Born-rule distribution over basis
    /// indices, freeze the state at the drawn basis vector, and record the
    /// outcome.  The state must carry some weight, as every normalized state
    /// does.
    pub fn collapse(&mut self)
        requires
            old(self).wf(),
            old(self).observed is None,
            weight_sum(old(self).state.elements@, old(self).state.elements@.len() as int) > 0,
        ensures
            final (self).wf(),
            final (self).width == old(self).width,
            final (self).observed is Some,
            exists|r: int|
                0 <= r < weight_sum(old(self).state.elements@, old(self).state.elements@.len() as int)
                    && final (self).observed == Some(pick(old(self).state.elements@, r) as usize)
                    && final (self).state.elements@ == basis(
                    old(self).state.elements@.len() as int,
                    pick(old(self).state.elements@, r),
                ),
    {
        let ghost v = self.state.elements@;
        let n = self.state.elements.len();
        let mut total: u128 = 0;
        let mut i: usize = 0;
        while i < n
            invariant
                self.wf(),
                *self == *old(self),
                v == self.state.elements@,
                n == v.len(),
                i <= n,
                total as int == weight_sum(v, i as int),
                total as int <= (i as int) * 0x2_0000_0000_0000_0000_0000_0000,
            decreases n - i,
        {
            let w = self.state.get(i).norm_sqr();
            proof {
                crate::complex::lemma_nsq_bounds(v[i as int]);
                lemma_weight_step(i as int, total as int, w as int);
            }
            total = total + w;
            i = i + 1;
        }
        let draw = draw_below(total);
        let mut cum: u128 = 0;
        let mut idx: usize = 0;
        let mut found = false;
        let mut k: usize = 0;
        while k < n
            invariant
                self.wf(),
                *self == *old(self),
                v == self.state.elements@,
                n == v.len(),
                k <= n,
                cum as int == weight_sum(v, k as int),
                cum as int <= (k as int) * 0x2_0000_0000_0000_0000_0000_0000,
                found ==> idx < k && weight_sum(v, idx as int + 1) > draw as int,
                found ==> forall|j: int| 1 <= j <= idx ==> #[trigger] weight_sum(v, j) <= draw as int,
                !found ==> forall|j: int| 1 <= j <= k ==> #[trigger] weight_sum(v, j) <= draw as int,
            decreases n - k,
        {
            let w = self.state.get(k).norm_sqr();
            proof {
                crate::complex::lemma_nsq_bounds(v[k as int]);
                lemma_weight_step(k as int, cum as int, w as int);
            }
            cum = cum + w;
            if !found && cum > draw {
                idx = k;
                found = true;
            }
            k = k + 1;
        }
        proof {
            assert(found);
            lemma_pick_from(v, draw as int, 0, idx as int);
        }
        let mut state = Ket::new(n);
        state.set(idx, Complex::one());
        proof {
            assert(state.elements@ =~= basis(n as int, idx as int));
        }
        self.state = state;
        self.observed = Some(idx);
        proof {
            let r = draw as int;
            assert(0 <= r && r < weight_sum(v, n as int));
            assert(self.observed == Some(pick(v, r) as usize));
            assert(self.state.elements@ == basis(n as int, pick(v, r)));
        }
    }

    /// The recorded classical outcome; valid only after a collapse.
    pub fn value(&self) -> (r: usize)
        requires
            self.observed is Some,
        ensures
            Some(r) == self.observed,
    {
        match self.observed {
            Some(t) => t,
            None => {
                proof {
                    assert(false);
                }
                0
            },
        }
    }

    /// Return to the all-zeros basis state and forget any recorded outcome.
    pub fn reset(&mut self)
        requires
            old(self).wf(),
        ensures
            final (self).wf(),
            final (self).width == old(self).width,
            final (self).observed is None,
            final (self).state.elements@ == basis(pow2(old(self).width as nat) as int, 0),
    {
        let n = pow2_exec(self.width);
        let mut state = Ket::new(n);
        state.set(0, Complex::one());
        proof {
            assert(state.elements@ =~= basis(n as int, 0));
        }
        self.state = state;
        self.observed = None;
    }
}

/// Relies on rand::random_range over `0..bound`: the sample is uniform in
/// the half-open range, in particular strictly below the bound; the range is
/// nonempty, so the call does not panic.
#[verifier::external_body]
fn draw_below(bound: u128) -> (r: u128)
    requires
        bound > 0,
    ensures
        r < bound,
{
    rand::random_range(0..bound)
}

/// One more squared magnitude keeps the running weight bounded.
proof fn lemma_weight_step(k: int, acc: int, w: int)
    requires
        0 <= k < crate::matrix::MAX_DIM as int,
        0 <= acc <= k * 0x2_0000_0000_0000_0000_0000_0000,
        0 <= w <= 0x2_0000_0000_0000_0000_0000_0000,
    ensures
        0 <= acc + w <= (k + 1) * 0x2_0000_0000_0000_0000_0000_0000,
        acc + w <= 0x2000_0000_0000_0000_0000_0000_0000,
{
    assert((k + 1) * 0x2_0000_0000_0000_0000_0000_0000 == k * 0x2_0000_0000_0000_0000_0000_0000
        + 0x2_0000_0000_0000_0000_0000_0000) by (nonlinear_arith);
    assert(k * 0x2_0000_0000_0000_0000_0000_0000 <= (crate::matrix::MAX_DIM as int)
        * 0x2_0000_0000_0000_0000_0000_0000) by (nonlinear_arith)
        requires
            0 <= k < crate::matrix::MAX_DIM as int,
    ;
}

/// The walk of `pick_rec` lands exactly on the smallest index whose
/// cumulative weight exceeds the draw.
pub proof fn lemma_pick_from(v: Seq<Complex>, r: int, i: int, t: int)
    requires
        0 <= i <= t < v.len(),
        weight_sum(v, t + 1) > r,
        forall|j: int| i + 1 <= j <= t ==> #[trigger] weight_sum(v, j) <= r,
    ensures
        pick_rec(v, r, i) == t,
    decreases t - i,
{
    if i == t {
    } else {
        assert(weight_sum(v, i + 1) <= r);
        lemma_pick_from(v, r, i + 1, t);
    }
}

} // verus!
