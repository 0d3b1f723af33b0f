//! Scalar complex arithmetic over fixed-point components.
//!
//! A complex number is a pair of fixed-point components: the real value `x`
//! is stored as the integer `x * SCALE`, rounded toward zero.  Products are
//! scaled back down by `SCALE` after multiplication, and every stored
//! component is clamped into `[-AMP_LIMIT, AMP_LIMIT]` so that arithmetic on
//! well-formed values can never overflow the machine integers.

use vstd::prelude::*;

verus! {

/// Number of fixed-point units that represent the real value one.
pub const SCALE: i64 = 65536;

/// Largest magnitude, in fixed-point units, that a stored component may take.
pub const AMP_LIMIT: i64 = 0x100_0000_0000_0000;

/// Tolerance, in fixed-point units, used by epsilon-equality.
pub const EPSILON: i64 = 16;

/// Division by `SCALE` rounding toward zero.
pub open spec fn scale_down(x: int) -> int {
    if x >= 0 {
        x / (SCALE as int)
    } else {
        -((-x) / (SCALE as int))
    }
}

/// Clamp a mathematical integer into `[-AMP_LIMIT, AMP_LIMIT]`.
pub open spec fn clamp(x: int) -> int {
    if x > AMP_LIMIT as int {
        AMP_LIMIT as int
    } else if x < -(AMP_LIMIT as int) {
        -(AMP_LIMIT as int)
    } else {
        x
    }
}

/// A complex number; both components are fixed-point integers.
#[derive(Clone, Copy, PartialEq, Eq, Structural, Debug)]
pub struct Complex {
    pub re: i64,
    pub im: i64,
}

/// The complex zero.
pub open spec fn c_zero() -> Complex {
    Complex { re: 0, im: 0 }
}

/// The complex one (the real value 1 in fixed-point units).
pub open spec fn c_one() -> Complex {
    Complex { re: SCALE, im: 0 }
}

/// The imaginary unit.
pub open spec fn c_i() -> Complex {
    Complex { re: 0, im: SCALE }
}

/// Build a complex value from already-clamped mathematical components.
pub open spec fn c_clamped(re: int, im: int) -> Complex {
    Complex { re: clamp(re) as i64, im: clamp(im) as i64 }
}

/// Real part of a product, scaled down but not clamped.
pub open spec fn mul_re_raw(a: Complex, b: Complex) -> int {
    scale_down(a.re * b.re - a.im * b.im)
}

/// Imaginary part of a product, scaled down but not clamped.
pub open spec fn mul_im_raw(a: Complex, b: Complex) -> int {
    scale_down(a.re * b.im + a.im * b.re)
}

/// Squared magnitude in fixed-point units.
pub open spec fn nsq(c: Complex) -> int {
    scale_down(c.re * c.re + c.im * c.im)
}

/// Componentwise closeness within `EPSILON`.
pub open spec fn approx(a: Complex, b: Complex) -> bool {
    &&& -(EPSILON as int) <= a.re - b.re <= EPSILON as int
    &&& -(EPSILON as int) <= a.im - b.im <= EPSILON as int
}

impl Complex {
    /// Both components lie within the clamping range.
    pub open spec fn wf(self) -> bool {
        &&& -(AMP_LIMIT as int) <= self.re <= AMP_LIMIT as int
        &&& -(AMP_LIMIT as int) <= self.im <= AMP_LIMIT as int
    }

    /// Cartesian constructor from fixed-point components.
    pub fn new(re: i64, im: i64) -> (r: Complex)
        requires
            -AMP_LIMIT <= re <= AMP_LIMIT,
            -AMP_LIMIT <= im <= AMP_LIMIT,
        ensures
            r == (Complex { re, im }),
            r.wf(),
    {
        Complex { re, im }
    }

    /// The real integer `n`, in fixed-point form.
    pub fn from_int(n: i64) -> (r: Complex)
        requires
            -0x100_0000_0000 <= n <= 0x100_0000_0000,
        ensures
            r.re == n * SCALE,
            r.im == 0,
            r.wf(),
    {
        Complex { re: n * SCALE, im: 0 }
    }

    pub fn zero() -> (r: Complex)
        ensures
            r == c_zero(),
            r.wf(),
    {
        Complex { re: 0, im: 0 }
    }

    pub fn one() -> (r: Complex)
        ensures
            r == c_one(),
            r.wf(),
    {
        Complex { re: SCALE, im: 0 }
    }

    pub fn i() -> (r: Complex)
        ensures
            r == c_i(),
            r.wf(),
    {
        Complex { re: 0, im: SCALE }
    }

    pub fn add(self, other: Complex) -> (r: Complex)
        requires
            self.wf(),
            other.wf(),
        ensures
            r == c_clamped(self.re + other.re, self.im + other.im),
            r.wf(),
    {
        Complex {
            re: clamp_down(self.re as i128 + other.re as i128),
            im: clamp_down(self.im as i128 + other.im as i128),
        }
    }

    pub fn sub(self, other: Complex) -> (r: Complex)
        requires
            self.wf(),
            other.wf(),
        ensures
            r == c_clamped(self.re - other.re, self.im - other.im),
            r.wf(),
    {
        Complex {
            re: clamp_down(self.re as i128 - other.re as i128),
            im: clamp_down(self.im as i128 - other.im as i128),
        }
    }

    /// Complex product under the (ac - bd, ad + bc) rule, scaled back down.
    pub fn mul(self, other: Complex) -> (r: Complex)
        requires
            self.wf(),
            other.wf(),
        ensures
            r == c_clamped(mul_re_raw(self, other), mul_im_raw(self, other)),
            r.wf(),
    {
        proof {
            lemma_product_bound(self.re as int, other.re as int);
            lemma_product_bound(self.im as int, other.im as int);
            lemma_product_bound(self.re as int, other.im as int);
            lemma_product_bound(self.im as int, other.re as int);
        }
        let ar = self.re as i128;
        let ai = self.im as i128;
        let br = other.re as i128;
        let bi = other.im as i128;
        Complex { re: clamp_down(scale_div(ar * br - ai * bi)), im: clamp_down(scale_div(ar * bi + ai * br)) }
    }

    pub fn conjugate(self) -> (r: Complex)
        requires
            self.wf(),
        ensures
            r.re == self.re,
            r.im == -self.im,
            r.wf(),
    {
        Complex { re: self.re, im: -self.im }
    }

    /// Squared magnitude, exact in fixed-point units.
    pub fn norm_sqr(self) -> (r: u128)
        requires
            self.wf(),
        ensures
            r as int == nsq(self),
    {
        proof {
            lemma_product_bound(self.re as int, self.re as int);
            lemma_product_bound(self.im as int, self.im as int);
            lemma_square_nonneg(self.re as int);
            lemma_square_nonneg(self.im as int);
        }
        let s: i128 = self.re as i128 * self.re as i128 + self.im as i128 * self.im as i128;
        (s as u128) / (SCALE as u128)
    }

    /// Componentwise equality within `EPSILON`.
    pub fn approx_eq(self, other: Complex) -> (r: bool)
        ensures
            r == approx(self, other),
    {
        let dr = self.re as i128 - other.re as i128;
        let di = self.im as i128 - other.im as i128;
        -(EPSILON as i128) <= dr && dr <= EPSILON as i128 && -(EPSILON as i128) <= di && di <= EPSILON as i128
    }
}

/// Clamp a wide intermediate into the stored component range.
fn clamp_down(x: i128) -> (r: i64)
    ensures
        r as int == clamp(x as int),
{
    if x > AMP_LIMIT as i128 {
        AMP_LIMIT
    } else if x < -(AMP_LIMIT as i128) {
        -AMP_LIMIT
    } else {
        x as i64
    }
}

/// Divide a wide intermediate by `SCALE`, rounding toward zero.
pub(crate) fn scale_div(x: i128) -> (r: i128)
    requires
        -0x4000_0000_0000_0000_0000_0000_0000_0000 < x,
    ensures
        r as int == scale_down(x as int),
{
    if x >= 0 {
        ((x as u128) / (SCALE as u128)) as i128
    } else {
        let q = (((-x) as u128) / (SCALE as u128)) as i128;
        -q
    }
}

/// The numerators and scaled values of one product term are bounded.
pub(crate) proof fn lemma_term_bounds(x: Complex, y: Complex)
    requires
        x.wf(),
        y.wf(),
    ensures
        -0x1_0000_0000_0000_0000_0000_0000_0000 <= x.re * y.re <= 0x1_0000_0000_0000_0000_0000_0000_0000,
        -0x1_0000_0000_0000_0000_0000_0000_0000 <= x.im * y.im <= 0x1_0000_0000_0000_0000_0000_0000_0000,
        -0x1_0000_0000_0000_0000_0000_0000_0000 <= x.re * y.im <= 0x1_0000_0000_0000_0000_0000_0000_0000,
        -0x1_0000_0000_0000_0000_0000_0000_0000 <= x.im * y.re <= 0x1_0000_0000_0000_0000_0000_0000_0000,
        -0x2_0000_0000_0000_0000_0000_0000_0000 <= x.re * y.re - x.im * y.im
            <= 0x2_0000_0000_0000_0000_0000_0000_0000,
        -0x2_0000_0000_0000_0000_0000_0000_0000 <= x.re * y.im + x.im * y.re
            <= 0x2_0000_0000_0000_0000_0000_0000_0000,
        -0x2_0000_0000_0000_0000_0000_0000_0000 <= mul_re_raw(x, y) <= 0x2_0000_0000_0000_0000_0000_0000_0000,
        -0x2_0000_0000_0000_0000_0000_0000_0000 <= mul_im_raw(x, y) <= 0x2_0000_0000_0000_0000_0000_0000_0000,
{
    lemma_product_bound(x.re as int, y.re as int);
    lemma_product_bound(x.im as int, y.im as int);
    lemma_product_bound(x.re as int, y.im as int);
    lemma_product_bound(x.im as int, y.re as int);
    lemma_scale_down_bound(x.re * y.re - x.im * y.im, 0x2_0000_0000_0000_0000_0000_0000_0000);
    lemma_scale_down_bound(x.re * y.im + x.im * y.re, 0x2_0000_0000_0000_0000_0000_0000_0000);
}

/// Products of in-range components stay well inside the wide integer range.
proof fn lemma_product_bound(a: int, b: int)
    requires
        -(AMP_LIMIT as int) <= a <= AMP_LIMIT as int,
        -(AMP_LIMIT as int) <= b <= AMP_LIMIT as int,
    ensures
        -0x1_0000_0000_0000_0000_0000_0000_0000 <= a * b <= 0x1_0000_0000_0000_0000_0000_0000_0000,
{
    assert(-0x1_0000_0000_0000_0000_0000_0000_0000 <= a * b <= 0x1_0000_0000_0000_0000_0000_0000_0000)
        by (nonlinear_arith)
        requires
            -(AMP_LIMIT as int) <= a <= AMP_LIMIT as int,
            -(AMP_LIMIT as int) <= b <= AMP_LIMIT as int,
    ;
}

proof fn lemma_square_nonneg(a: int)
    ensures
        a * a >= 0,
{
    assert(a * a >= 0) by (nonlinear_arith);
}

/// Scaling a value up by `SCALE` and back down returns it unchanged.
pub proof fn lemma_scale_down_exact(x: int)
    ensures
        scale_down(x * (SCALE as int)) == x,
{
    vstd::arithmetic::div_mod::lemma_div_multiples_vanish(x, SCALE as int);
    if x >= 0 {
    } else {
        assert(-(x * (SCALE as int)) == (-x) * (SCALE as int)) by (nonlinear_arith);
        vstd::arithmetic::div_mod::lemma_div_multiples_vanish(-x, SCALE as int);
    }
}

/// Scaling down never increases magnitude.
pub proof fn lemma_scale_down_bound(x: int, b: int)
    requires
        -b <= x <= b,
        0 <= b,
    ensures
        -b <= scale_down(x) <= b,
{
    let y: int = if x >= 0 { x } else { -x };
    if y == 0 {
        vstd::arithmetic::div_mod::lemma_basic_div(0, SCALE as int);
    } else {
        vstd::arithmetic::div_mod::lemma_div_is_strictly_smaller(y, SCALE as int);
        vstd::arithmetic::div_mod::lemma_div_pos_is_pos(y, SCALE as int);
    }
}

/// The squared magnitude is nonnegative and bounded for well-formed values.
pub proof fn lemma_nsq_bounds(c: Complex)
    requires
        c.wf(),
    ensures
        0 <= nsq(c) <= 0x2_0000_0000_0000_0000_0000_0000,
{
    lemma_square_nonneg(c.re as int);
    lemma_square_nonneg(c.im as int);
    lemma_product_bound(c.re as int, c.re as int);
    lemma_product_bound(c.im as int, c.im as int);
    vstd::arithmetic::div_mod::lemma_div_pos_is_pos(c.re * c.re + c.im * c.im, SCALE as int);
    vstd::arithmetic::div_mod::lemma_div_is_ordered(
        c.re * c.re + c.im * c.im,
        0x2_0000_0000_0000_0000_0000_0000_0000,
        SCALE as int,
    );
    assert(0x2_0000_0000_0000_0000_0000_0000_0000int / (SCALE as int) == 0x2_0000_0000_0000_0000_0000_0000int);
}

/// Multiplying by one is exact.
pub proof fn lemma_mul_one(c: Complex)
    ensures
        mul_re_raw(c_one(), c) == c.re,
        mul_im_raw(c_one(), c) == c.im,
        mul_re_raw(c, c_one()) == c.re,
        mul_im_raw(c, c_one()) == c.im,
{
    lemma_scale_down_exact(c.re as int);
    lemma_scale_down_exact(c.im as int);
    assert((SCALE as int) * c.re == c.re * (SCALE as int)) by (nonlinear_arith);
    assert((SCALE as int) * c.im == c.im * (SCALE as int)) by (nonlinear_arith);
}

/// Multiplying by zero is exactly zero.
pub proof fn lemma_mul_zero(c: Complex)
    ensures
        mul_re_raw(c_zero(), c) == 0,
        mul_im_raw(c_zero(), c) == 0,
        mul_re_raw(c, c_zero()) == 0,
        mul_im_raw(c, c_zero()) == 0,
{
    assert(0 * c.re == 0) by (nonlinear_arith);
    assert(0 * c.im == 0) by (nonlinear_arith);
    assert(c.re * 0 == 0) by (nonlinear_arith);
    assert(c.im * 0 == 0) by (nonlinear_arith);
    assert(scale_down(0) == 0);
}

} // verus!
