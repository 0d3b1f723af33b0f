use quantum::complex::Complex;
use quantum::ket::Ket;
use quantum::matrix::Matrix;

// One real unit in fixed-point units.
const S: i64 = 65536;

#[test]
fn complex_constants_and_constructors() {
    assert_eq!(Complex::zero(), Complex::new(0, 0));
    assert_eq!(Complex::one(), Complex::new(S, 0));
    assert_eq!(Complex::i(), Complex::new(0, S));
    assert_eq!(Complex::from_int(99), Complex::new(99 * S, 0));
}

#[test]
fn complex_arithmetic_exact_values() {
    // (1 + 2i)(3 + 4i) == -5 + 10i
    let a = Complex::new(S, 2 * S);
    let b = Complex::new(3 * S, 4 * S);
    assert_eq!(a.mul(b), Complex::new(-5 * S, 10 * S));
    assert_eq!(a.add(b), Complex::new(4 * S, 6 * S));
    assert_eq!(b.sub(a), Complex::new(2 * S, 2 * S));
    assert_eq!(a.conjugate(), Complex::new(S, -2 * S));
    // |3 + 4i|^2 == 25
    assert_eq!(b.norm_sqr(), 25 * S as u128);
}

#[test]
fn complex_epsilon_equality() {
    let a = Complex::new(1000, 1000);
    assert!(a.approx_eq(Complex::new(1016, 984)));
    assert!(!a.approx_eq(Complex::new(1017, 1000)));
}

#[test]
fn matrix_identity_and_size() {
    let m = Matrix::identity(4);
    assert_eq!(m.size(), 4);
    for i in 0..4 {
        for j in 0..4 {
            let want = if i == j { Complex::one() } else { Complex::zero() };
            assert_eq!(m.get(i, j), want);
        }
    }
}

#[test]
fn matrix_multiply_exact() {
    // [[1, 1], [0, 1]] * [[1, 0], [1, 1]] == [[2, 1], [1, 1]]
    let o = Complex::one();
    let z = Complex::zero();
    let a = Matrix::new(2, vec![o, o, z, o]);
    let b = Matrix::new(2, vec![o, z, o, o]);
    let p = a.multiply(&b);
    assert_eq!(p.get(0, 0), Complex::new(2 * S, 0));
    assert_eq!(p.get(0, 1), o);
    assert_eq!(p.get(1, 0), o);
    assert_eq!(p.get(1, 1), o);
}

#[test]
fn matrix_tensor_exact() {
    // X tensor I: ones connect the two halves blockwise
    let o = Complex::one();
    let z = Complex::zero();
    let x = Matrix::new(2, vec![z, o, o, z]);
    let id = Matrix::identity(2);
    let t = x.tensor(&id);
    assert_eq!(t.size(), 4);
    assert_eq!(t.get(0, 2), o);
    assert_eq!(t.get(1, 3), o);
    assert_eq!(t.get(2, 0), o);
    assert_eq!(t.get(3, 1), o);
    assert_eq!(t.get(0, 0), z);
    assert_eq!(t.get(0, 1), z);
}

#[test]
fn matrix_embed_extract_roundtrip() {
    let o = Complex::one();
    let sub = Matrix::new(2, vec![Complex::new(1, 2), Complex::new(3, 4), Complex::new(5, 6), o]);
    let mut m = Matrix::identity(4);
    m.embed(&sub, 2, 2);
    // the untouched corner keeps its identity entries
    assert_eq!(m.get(0, 0), o);
    assert_eq!(m.get(1, 0), Complex::zero());
    // re-reading the block returns the original submatrix unchanged
    let back = m.extract(2, 2, 2);
    assert_eq!(back, sub);
    assert_eq!(back.get(0, 1), Complex::new(3, 4));
}

#[test]
fn matrix_epsilon_equality() {
    let a = Matrix::new(1, vec![Complex::new(500, 500)]);
    let close = Matrix::new(1, vec![Complex::new(516, 500)]);
    let far = Matrix::new(1, vec![Complex::new(517, 500)]);
    assert!(a == close);
    assert!(a != far);
    assert!(a != Matrix::identity(2));
}

#[test]
fn ket_construction_and_access() {
    assert_eq!(Ket::size(3), 8);
    let mut k = Ket::new(8);
    for i in 0..8 {
        assert_eq!(k.get(i), Complex::zero());
    }
    k.set(5, Complex::from_int(99));
    assert_eq!(k.get(5), Complex::from_int(99));
    assert_eq!(k.get(4), Complex::zero());
}

#[test]
fn ket_epsilon_equality() {
    let mut a = Ket::new(2);
    let mut b = Ket::new(2);
    a.set(0, Complex::new(100, 0));
    b.set(0, Complex::new(110, 0));
    assert!(a == b);
    b.set(0, Complex::new(200, 0));
    assert!(a != b);
    assert!(a != Ket::new(4));
}
