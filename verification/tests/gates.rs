use quantum::complex::Complex;
use quantum::computer::QuantumComputer;
use quantum::gates::{
    controlled, controlled_not, controlled_x, controlled_y, controlled_z, hadamard, identity, pauli_x,
    pauli_y, pauli_z, phase_shift, sqrt_swap, swap,
};
use quantum::ket::Ket;
use quantum::matrix::Matrix;

#[test]
fn identity_test() {
    let id_gate = identity(3);
    let mut ket = Ket::new(8);
    ket.set(5, Complex::from_int(99));

    let expected = ket.clone();

    ket.apply(&id_gate);

    assert_eq!(expected, ket);
}

#[test]
fn hadamard_test() {
    let mut c = QuantumComputer::new(1);

    let mut ones = 0;

    for _ in 0..1000 {
        c.initialize(0);
        c.apply(&hadamard());
        c.collapse();
        let v = c.value();
        c.reset();

        if 1 == v {
            ones += 1;
        }
    }

    assert!(ones <= 600 && 400 <= ones)
}

#[test]
fn pauli_x_test() {
    let mut c = QuantumComputer::new(1);

    // |0> goes to |1>
    c.initialize(0);
    c.apply(&pauli_x());
    c.collapse();
    assert_eq!(1, c.value());
    c.reset();

    // |1> goes to |0>
    c.initialize(1);
    c.apply(&pauli_x());
    c.collapse();
    assert_eq!(0, c.value());
    c.reset();
}

#[test]
fn pauli_y_test() {
    let mut c = QuantumComputer::new(1);

    // |0> goes to i|1>
    c.initialize(0);
    c.apply(&pauli_y());
    c.collapse();
    assert_eq!(1, c.value());
    c.reset();

    // |1> goes to -i|0>
    c.initialize(1);
    c.apply(&pauli_y());
    c.collapse();
    assert_eq!(0, c.value());
    c.reset();
}

#[test]
fn pauli_z_test() {
    let mut c = QuantumComputer::new(1);

    // |0> goes to |0>
    c.initialize(0);
    c.apply(&pauli_z());
    c.collapse();
    assert_eq!(0, c.value());
    c.reset();

    // |1> goes to -|1>
    c.initialize(1);
    c.apply(&pauli_z());
    c.collapse();
    assert_eq!(1, c.value());
    c.reset();
}

fn euler_phase(phi: f64) -> Complex {
    let re = (phi.cos() * 65536.0).round() as i64;
    let im = (phi.sin() * 65536.0).round() as i64;
    assert!(-65536 <= re && re <= 65536 && -65536 <= im && im <= 65536);
    Complex::new(re, im)
}

#[test]
fn phase_shift_test() {
    let phi = 0.3f64;
    let mut c = QuantumComputer::new(1);

    // |0> goes to |0>
    c.initialize(0);
    c.apply(&phase_shift(euler_phase(phi)));
    c.collapse();
    assert_eq!(0, c.value());
    c.reset();

    // |1> goes to exp(i * phi)|1>
    c.initialize(1);
    c.apply(&phase_shift(euler_phase(phi)));
    c.collapse();
    assert_eq!(1, c.value());
    c.reset();
}

#[test]
fn swap_test() {
    let mut c = QuantumComputer::new(2);

    // |00> goes to |00>
    c.initialize(0);
    c.apply(&swap());
    c.collapse();
    assert_eq!(0, c.value());
    c.reset();

    // |01> goes to |10>
    c.initialize(2);
    c.apply(&swap());
    c.collapse();
    assert_eq!(1, c.value());
    c.reset();
}

#[test]
fn sqrt_swap_test() {
    let mut c = QuantumComputer::new(2);

    // |00> goes to |00>
    c.initialize(0);
    c.apply(&sqrt_swap());
    c.collapse();
    assert_eq!(0, c.value());
    c.reset();

    // |11> goes to |11>
    c.initialize(3);
    c.apply(&sqrt_swap());
    c.collapse();
    assert_eq!(3, c.value());
    c.reset();
}

#[test]
fn controlled_not_test() {
    let mut c = QuantumComputer::new(2);

    // |00> goes to |00>
    c.initialize(0);
    c.apply(&controlled_not());
    c.collapse();
    assert_eq!(0, c.value());
    c.reset();

    // |01> goes to |01>
    c.initialize(1);
    c.apply(&controlled_not());
    c.collapse();
    assert_eq!(1, c.value());
    c.reset();

    // |10> goes to |11>
    c.initialize(2);
    c.apply(&controlled_not());
    c.collapse();
    assert_eq!(3, c.value());
    c.reset();

    // |11> goes to |10>
    c.initialize(3);
    c.apply(&controlled_not());
    c.collapse();
    assert_eq!(2, c.value());
    c.reset();
}

#[test]
fn controlled_test() {
    let flip = Matrix::new(
        2,
        vec![Complex::zero(), Complex::one(), Complex::one(), Complex::zero()],
    );
    let g = controlled(&flip);

    assert_eq!(controlled_not(), g);
}

#[test]
fn controlled_x_matches_controlled_not() {
    assert_eq!(controlled_x(), controlled_not());
}

#[test]
fn controlled_y_and_z_entries() {
    let y = controlled_y();
    assert_eq!(y.width(), 2);
    assert_eq!(y.matrix().get(0, 0), Complex::one());
    assert_eq!(y.matrix().get(1, 1), Complex::one());
    assert_eq!(y.matrix().get(2, 3), Complex::new(0, -65536));
    assert_eq!(y.matrix().get(3, 2), Complex::i());
    assert_eq!(y.matrix().get(2, 2), Complex::zero());

    let z = controlled_z();
    assert_eq!(z.matrix().get(2, 2), Complex::one());
    assert_eq!(z.matrix().get(3, 3), Complex::new(-65536, 0));
}

#[test]
fn involutions_compose_to_identity() {
    let id2 = Matrix::identity(2);
    let id4 = Matrix::identity(4);

    let x = pauli_x();
    assert_eq!(x.matrix().multiply(x.matrix()), id2);
    let y = pauli_y();
    assert_eq!(y.matrix().multiply(y.matrix()), id2);
    let z = pauli_z();
    assert_eq!(z.matrix().multiply(z.matrix()), id2);
    let h = hadamard();
    assert_eq!(h.matrix().multiply(h.matrix()), id2);
    let s = swap();
    assert_eq!(s.matrix().multiply(s.matrix()), id4);
}

#[test]
fn hadamard_superposes_and_preserves_norm() {
    let mut k = Ket::new(2);
    k.set(0, Complex::one());
    k.apply(&hadamard());
    assert_eq!(k.get(0), Complex::new(46341, 0));
    assert_eq!(k.get(1), Complex::new(46341, 0));
    // each weight is exactly one half, so the norm is exactly one
    assert_eq!(k.get(0).norm_sqr(), 32768);
    assert_eq!(k.get(1).norm_sqr(), 32768);
    assert_eq!(k.get(0).norm_sqr() + k.get(1).norm_sqr(), 65536);
}

#[test]
fn pauli_z_flips_sign_pre_collapse() {
    let mut k = Ket::new(2);
    k.set(1, Complex::one());
    k.apply(&pauli_z());
    assert_eq!(k.get(0), Complex::zero());
    assert_eq!(k.get(1), Complex::new(-65536, 0));
}

#[test]
fn pauli_y_introduces_phase_pre_collapse() {
    let mut k = Ket::new(2);
    k.set(0, Complex::one());
    k.apply(&pauli_y());
    assert_eq!(k.get(0), Complex::zero());
    assert_eq!(k.get(1), Complex::i());
}

#[test]
fn sqrt_swap_entries() {
    let g = sqrt_swap();
    assert_eq!(g.matrix().get(0, 0), Complex::one());
    assert_eq!(g.matrix().get(1, 1), Complex::new(32768, 32768));
    assert_eq!(g.matrix().get(1, 2), Complex::new(32768, -32768));
    assert_eq!(g.matrix().get(3, 3), Complex::one());
}

#[test]
fn reset_restores_ground_state() {
    let mut c = QuantumComputer::new(2);
    c.initialize(3);
    c.apply(&controlled_not());
    c.collapse();
    c.reset();
    // the recorded value is gone and the state is |00> again
    c.collapse();
    assert_eq!(0, c.value());
    // the width survives the reset
    c.reset();
    c.initialize(2);
    c.apply(&swap());
    c.collapse();
    assert_eq!(1, c.value());
}

#[test]
fn identity_applies_to_narrower_register_slice() {
    // a one-qubit identity on a two-qubit register changes nothing
    let mut k = Ket::new(4);
    k.set(2, Complex::from_int(7));
    let expected = k.clone();
    k.apply(&identity(1));
    assert_eq!(expected, k);
}

#[test]
fn phase_shift_entries() {
    let p = Complex::new(62609, 19366);
    let g = phase_shift(p);
    assert_eq!(g.width(), 1);
    assert_eq!(g.matrix().get(0, 0), Complex::one());
    assert_eq!(g.matrix().get(0, 1), Complex::zero());
    assert_eq!(g.matrix().get(1, 0), Complex::zero());
    assert_eq!(g.matrix().get(1, 1), p);
}
