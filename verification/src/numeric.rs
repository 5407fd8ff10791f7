//! The scalar types that the system computes with.
//!
//! The physics is carried out on [`Fixed`], a fixed-point scalar with an
//! exact integer model; the element-wise vector operations are generic
//! over [`Numeric`], which the primitive integer types implement as well.

use vstd::prelude::*;

verus! {

use vstd::math::abs;

/// A scalar with an exact integer model: its value as a mathematical
/// integer, the range it can hold, and exact addition and subtraction
/// within that range.
pub trait Numeric: Sized + Copy {
    /// The mathematical value of this scalar.
    spec fn as_int(self) -> int;

    /// The smallest value the representation can hold.
    spec fn min_val() -> int;

    /// The largest value the representation can hold.
    spec fn max_val() -> int;

    /// The additive identity.
    fn num_zero() -> (r: Self)
        ensures
            r.as_int() == 0,
    ;

    /// The integer one.
    fn num_one() -> (r: Self)
        ensures
            r.as_int() == 1,
    ;

    /// Exact addition; the mathematical sum must be representable.
    fn num_add(self, rhs: Self) -> (r: Self)
        requires
            Self::min_val() <= self.as_int() + rhs.as_int() <= Self::max_val(),
        ensures
            r.as_int() == self.as_int() + rhs.as_int(),
    ;

    /// Exact subtraction; the mathematical difference must be representable.
    fn num_sub(self, rhs: Self) -> (r: Self)
        requires
            Self::min_val() <= self.as_int() - rhs.as_int() <= Self::max_val(),
        ensures
            r.as_int() == self.as_int() - rhs.as_int(),
    ;
}

impl Numeric for u8 {
    open spec fn as_int(self) -> int {
        self as int
    }

    open spec fn min_val() -> int {
        0
    }

    open spec fn max_val() -> int {
        u8::MAX as int
    }

    fn num_zero() -> u8 {
        0
    }

    fn num_one() -> u8 {
        1
    }

    fn num_add(self, rhs: u8) -> u8 {
        self + rhs
    }

    fn num_sub(self, rhs: u8) -> u8 {
        self - rhs
    }
}

impl Numeric for u16 {
    open spec fn as_int(self) -> int {
        self as int
    }

    open spec fn min_val() -> int {
        0
    }

    open spec fn max_val() -> int {
        u16::MAX as int
    }

    fn num_zero() -> u16 {
        0
    }

    fn num_one() -> u16 {
        1
    }

    fn num_add(self, rhs: u16) -> u16 {
        self + rhs
    }

    fn num_sub(self, rhs: u16) -> u16 {
        self - rhs
    }
}

impl Numeric for u32 {
    open spec fn as_int(self) -> int {
        self as int
    }

    open spec fn min_val() -> int {
        0
    }

    open spec fn max_val() -> int {
        u32::MAX as int
    }

    fn num_zero() -> u32 {
        0
    }

    fn num_one() -> u32 {
        1
    }

    fn num_add(self, rhs: u32) -> u32 {
        self + rhs
    }

    fn num_sub(self, rhs: u32) -> u32 {
        self - rhs
    }
}

impl Numeric for u64 {
    open spec fn as_int(self) -> int {
        self as int
    }

    open spec fn min_val() -> int {
        0
    }

    open spec fn max_val() -> int {
        u64::MAX as int
    }

    fn num_zero() -> u64 {
        0
    }

    fn num_one() -> u64 {
        1
    }

    fn num_add(self, rhs: u64) -> u64 {
        self + rhs
    }

    fn num_sub(self, rhs: u64) -> u64 {
        self - rhs
    }
}

impl Numeric for u128 {
    open spec fn as_int(self) -> int {
        self as int
    }

    open spec fn min_val() -> int {
        0
    }

    open spec fn max_val() -> int {
        u128::MAX as int
    }

    fn num_zero() -> u128 {
        0
    }

    fn num_one() -> u128 {
        1
    }

    fn num_add(self, rhs: u128) -> u128 {
        self + rhs
    }

    fn num_sub(self, rhs: u128) -> u128 {
        self - rhs
    }
}

impl Numeric for usize {
    open spec fn as_int(self) -> int {
        self as int
    }

    open spec fn min_val() -> int {
        0
    }

    open spec fn max_val() -> int {
        usize::MAX as int
    }

    fn num_zero() -> usize {
        0
    }

    fn num_one() -> usize {
        1
    }

    fn num_add(self, rhs: usize) -> usize {
        self + rhs
    }

    fn num_sub(self, rhs: usize) -> usize {
        self - rhs
    }
}

impl Numeric for i8 {
    open spec fn as_int(self) -> int {
        self as int
    }

    open spec fn min_val() -> int {
        i8::MIN as int
    }

    open spec fn max_val() -> int {
        i8::MAX as int
    }

    fn num_zero() -> i8 {
        0
    }

    fn num_one() -> i8 {
        1
    }

    fn num_add(self, rhs: i8) -> i8 {
        self + rhs
    }

    fn num_sub(self, rhs: i8) -> i8 {
        self - rhs
    }
}

impl Numeric for i16 {
    open spec fn as_int(self) -> int {
        self as int
    }

    open spec fn min_val() -> int {
        i16::MIN as int
    }

    open spec fn max_val() -> int {
        i16::MAX as int
    }

    fn num_zero() -> i16 {
        0
    }

    fn num_one() -> i16 {
        1
    }

    fn num_add(self, rhs: i16) -> i16 {
        self + rhs
    }

    fn num_sub(self, rhs: i16) -> i16 {
        self - rhs
    }
}

impl Numeric for i32 {
    open spec fn as_int(self) -> int {
        self as int
    }

    open spec fn min_val() -> int {
        i32::MIN as int
    }

    open spec fn max_val() -> int {
        i32::MAX as int
    }

    fn num_zero() -> i32 {
        0
    }

    fn num_one() -> i32 {
        1
    }

    fn num_add(self, rhs: i32) -> i32 {
        self + rhs
    }

    fn num_sub(self, rhs: i32) -> i32 {
        self - rhs
    }
}

impl Numeric for i64 {
    open spec fn as_int(self) -> int {
        self as int
    }

    open spec fn min_val() -> int {
        i64::MIN as int
    }

    open spec fn max_val() -> int {
        i64::MAX as int
    }

    fn num_zero() -> i64 {
        0
    }

    fn num_one() -> i64 {
        1
    }

    fn num_add(self, rhs: i64) -> i64 {
        self + rhs
    }

    fn num_sub(self, rhs: i64) -> i64 {
        self - rhs
    }
}

impl Numeric for i128 {
    open spec fn as_int(self) -> int {
        self as int
    }

    open spec fn min_val() -> int {
        i128::MIN as int
    }

    open spec fn max_val() -> int {
        i128::MAX as int
    }

    fn num_zero() -> i128 {
        0
    }

    fn num_one() -> i128 {
        1
    }

    fn num_add(self, rhs: i128) -> i128 {
        self + rhs
    }

    fn num_sub(self, rhs: i128) -> i128 {
        self - rhs
    }
}

impl Numeric for isize {
    open spec fn as_int(self) -> int {
        self as int
    }

    open spec fn min_val() -> int {
        isize::MIN as int
    }

    open spec fn max_val() -> int {
        isize::MAX as int
    }

    fn num_zero() -> isize {
        0
    }

    fn num_one() -> isize {
        1
    }

    fn num_add(self, rhs: isize) -> isize {
        self + rhs
    }

    fn num_sub(self, rhs: isize) -> isize {
        self - rhs
    }
}

/// The number of raw units that make up one whole unit of a [`Fixed`]
/// scalar.
pub const SCALE: i64 = 1_000_000;

/// Whether `x` is representable as a raw [`Fixed`] value.
pub open spec fn fixed_fits(x: int) -> bool {
    i64::MIN <= x <= i64::MAX
}

/// Division truncated toward zero, the rounding that [`Fixed::mul`] and
/// [`Fixed::half`] perform on their raw products.
pub open spec fn tdiv(n: int, d: int) -> int {
    if n >= 0 {
        n / d
    } else {
        -((-n) / d)
    }
}

/// The raw value of the fixed-point product of raw values `a` and `b`.
pub open spec fn fmul(a: int, b: int) -> int {
    tdiv(a * b, SCALE as int)
}

/// The raw value of half of the raw value `a`, truncated toward zero.
pub open spec fn fhalf(a: int) -> int {
    tdiv(a, 2)
}

/// A fixed-point scalar: the represented value is the raw value divided by
/// [`SCALE`]. Its view is the raw value as a mathematical integer.
#[derive(Debug, Copy, Clone, PartialEq, Eq, Structural)]
pub struct Fixed(i64);

impl View for Fixed {
    type V = int;

    closed spec fn view(&self) -> int {
        self.0 as int
    }
}

impl Numeric for Fixed {
    open spec fn as_int(self) -> int {
        self@
    }

    open spec fn min_val() -> int {
        i64::MIN as int
    }

    open spec fn max_val() -> int {
        i64::MAX as int
    }

    fn num_zero() -> Fixed {
        Fixed(0)
    }

    fn num_one() -> Fixed {
        Fixed(1)
    }

    fn num_add(self, rhs: Fixed) -> Fixed {
        Fixed(self.0 + rhs.0)
    }

    fn num_sub(self, rhs: Fixed) -> Fixed {
        Fixed(self.0 - rhs.0)
    }
}

/// The magnitude of `x` as a `u128`.
fn abs_u128(x: i64) -> (r: u128)
    ensures
        r == abs(x as int),
{
    if x >= 0 {
        x as u128
    } else {
        (-(x as i128)) as u128
    }
}

impl Fixed {
    /// Wraps a raw value.
    pub fn from_raw(raw: i64) -> (r: Fixed)
        ensures
            r@ == raw as int,
    {
        Fixed(raw)
    }

    /// The raw value.
    pub fn raw(self) -> (r: i64)
        ensures
            r as int == self@,
    {
        self.0
    }

    /// The value zero.
    pub fn zero() -> (r: Fixed)
        ensures
            r@ == 0,
    {
        Fixed(0)
    }

    /// The value one, that is, [`SCALE`] raw units.
    pub fn one() -> (r: Fixed)
        ensures
            r@ == SCALE as int,
    {
        Fixed(SCALE)
    }

    /// Exact addition of two scalars.
    pub fn add(self, rhs: Fixed) -> (r: Fixed)
        requires
            fixed_fits(self@ + rhs@),
        ensures
            r@ == self@ + rhs@,
    {
        Fixed(self.0 + rhs.0)
    }

    /// Exact subtraction of two scalars.
    pub fn sub(self, rhs: Fixed) -> (r: Fixed)
        requires
            fixed_fits(self@ - rhs@),
        ensures
            r@ == self@ - rhs@,
    {
        Fixed(self.0 - rhs.0)
    }

    /// Exact negation.
    pub fn neg(self) -> (r: Fixed)
        requires
            fixed_fits(-self@),
        ensures
            r@ == -self@,
    {
        Fixed(-self.0)
    }

    /// Fixed-point multiplication: the raw product scaled back down by
    /// [`SCALE`], truncated toward zero.
    pub fn mul(self, rhs: Fixed) -> (r: Fixed)
        requires
            fixed_fits(fmul(self@, rhs@)),
        ensures
            r@ == fmul(self@, rhs@),
    {
        let negative: bool = (self.0 < 0) != (rhs.0 < 0);
        let a: u128 = abs_u128(self.0);
        let b: u128 = abs_u128(rhs.0);
        proof {
            lemma_abs_product(self@, rhs@);
            lemma_product_sign(self@, rhs@);
            vstd::arithmetic::mul::lemma_mul_upper_bound(
                abs(self@) as int,
                0x8000_0000_0000_0000,
                abs(rhs@) as int,
                0x8000_0000_0000_0000,
            );
        }
        let q: u128 = (a * b) / (SCALE as u128);
        proof {
            lemma_tdiv_by_sign(self@ * rhs@, SCALE as int);
        }
        if negative {
            Fixed((-(q as i128)) as i64)
        } else {
            Fixed(q as i64)
        }
    }

    /// Half of a scalar, truncated toward zero.
    pub fn half(self) -> (r: Fixed)
        ensures
            r@ == fhalf(self@),
    {
        let negative: bool = self.0 < 0;
        let a: u128 = abs_u128(self.0);
        let q: u128 = a / 2;
        proof {
            lemma_tdiv_by_sign(self@, 2);
        }
        if negative {
            Fixed((-(q as i128)) as i64)
        } else {
            Fixed(q as i64)
        }
    }
}

/// The magnitude of a product is the product of the magnitudes.
proof fn lemma_abs_product(a: int, b: int)
    ensures
        abs(a * b) == abs(a) * abs(b),
{
    assert(abs(a * b) == abs(a) * abs(b)) by (nonlinear_arith);
}

/// The sign of a product follows the signs of its factors.
proof fn lemma_product_sign(a: int, b: int)
    ensures
        a >= 0 && b >= 0 ==> a * b >= 0,
        a <= 0 && b <= 0 ==> a * b >= 0,
        a >= 0 && b <= 0 ==> a * b <= 0,
        a <= 0 && b >= 0 ==> a * b <= 0,
{
    assert(a >= 0 && b >= 0 ==> a * b >= 0) by (nonlinear_arith);
    assert(a <= 0 && b <= 0 ==> a * b >= 0) by (nonlinear_arith);
    assert(a >= 0 && b <= 0 ==> a * b <= 0) by (nonlinear_arith);
    assert(a <= 0 && b >= 0 ==> a * b <= 0) by (nonlinear_arith);
}

/// Truncated division expressed through the magnitude of the dividend: the
/// quotient's magnitude is the Euclidean quotient of the magnitudes.
proof fn lemma_tdiv_by_sign(n: int, d: int)
    requires
        d > 0,
    ensures
        n >= 0 ==> tdiv(n, d) == abs(n) as int / d,
        n < 0 ==> tdiv(n, d) == -(abs(n) as int / d),
{
}

} // verus!

