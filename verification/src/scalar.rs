//! Element arithmetic: what an accumulator type has to offer, and the exact wrapping
//! `i32` arithmetic behind the integer kernels.

use vstd::prelude::*;
use vstd::wrapping::i32_specs;

verus! {

/// The arithmetic of an accumulator: two constants with their tests, a sum and a product.
///
/// No algebraic law is asked for. A floating-point accumulator rounds, so its sum is not
/// associative, and every contract built on this trait fixes the order of the operations.
///
/// The methods whose names end in `_spec`, here and in the traits built on this one, say what the
/// methods without it compute. An implementation that takes no part in a proof gives both the same
/// bodies.
pub trait Scalar: Copy {
    /// The additive constant.
    spec fn zero_spec() -> Self;

    /// The multiplicative constant.
    spec fn one_spec() -> Self;

    /// Whether a value compares equal to zero.
    spec fn is_zero_spec(self) -> bool;

    /// Whether a value compares equal to one.
    spec fn is_one_spec(self) -> bool;

    /// The sum, as the type computes it.
    spec fn plus_spec(self, other: Self) -> Self;

    /// The product, as the type computes it.
    spec fn times_spec(self, other: Self) -> Self;

    /// The constants pass their own tests.
    proof fn constants_compare()
        ensures
            Self::zero_spec().is_zero_spec(),
            Self::one_spec().is_one_spec(),
    ;

    fn zero() -> (r: Self)
        ensures
            r == Self::zero_spec(),
    ;

    fn one() -> (r: Self)
        ensures
            r == Self::one_spec(),
    ;

    fn is_zero(self) -> (r: bool)
        ensures
            r == self.is_zero_spec(),
    ;

    fn is_one(self) -> (r: bool)
        ensures
            r == self.is_one_spec(),
    ;

    fn plus(self, other: Self) -> (r: Self)
        ensures
            r == self.plus_spec(other),
    ;

    fn times(self, other: Self) -> (r: Self)
        ensures
            r == self.times_spec(other),
    ;
}

/// The `i32` congruent to `x` modulo `2^32`.
pub open spec fn wrap_i32(x: int) -> i32 {
    i32_specs::signed_crop(x)
}

/// `wrap_i32(x)` differs from `x` by a multiple of `2^32`.
pub proof fn lemma_wrap_i32(x: int)
    ensures
        (wrap_i32(x) - x) % 0x1_0000_0000 == 0,
        i32::MIN <= x <= i32::MAX ==> wrap_i32(x) == x,
{
}

/// Two integers that differ by a multiple of `2^32` wrap to the same `i32`.
pub proof fn lemma_wrap_i32_eq(x: int, y: int)
    requires
        (x - y) % 0x1_0000_0000 == 0,
    ensures
        wrap_i32(x) == wrap_i32(y),
{
}

/// Wrapping a summand first does not change a wrapped sum.
pub proof fn lemma_wrap_i32_sum(x: int, y: int)
    ensures
        wrap_i32(wrap_i32(x) + y) == wrap_i32(x + y),
        wrap_i32(x + wrap_i32(y)) == wrap_i32(x + y),
        wrap_i32(wrap_i32(x) + wrap_i32(y)) == wrap_i32(x + y),
{
    lemma_wrap_i32(x);
    lemma_wrap_i32(y);
    lemma_wrap_i32_eq(wrap_i32(x) + y, x + y);
    lemma_wrap_i32_eq(x + wrap_i32(y), x + y);
    lemma_wrap_i32_eq(wrap_i32(x) + wrap_i32(y), x + y);
}

/// Wrapping a factor first does not change a wrapped product.
pub proof fn lemma_wrap_i32_product(x: int, y: int)
    ensures
        wrap_i32(wrap_i32(x) * y) == wrap_i32(x * y),
        wrap_i32(x * wrap_i32(y)) == wrap_i32(x * y),
{
    lemma_wrap_i32(x);
    lemma_wrap_i32(y);
    let dx = (wrap_i32(x) - x) / 0x1_0000_0000;
    let dy = (wrap_i32(y) - y) / 0x1_0000_0000;
    let wx = wrap_i32(x) as int;
    let wy = wrap_i32(y) as int;
    assert(wx - x == dx * 0x1_0000_0000);
    assert(wy - y == dy * 0x1_0000_0000);
    assert(wx * y - x * y == (dx * y) * 0x1_0000_0000) by (nonlinear_arith)
        requires
            wx - x == dx * 0x1_0000_0000,
    ;
    assert(x * wy - x * y == (x * dy) * 0x1_0000_0000) by (nonlinear_arith)
        requires
            wy - y == dy * 0x1_0000_0000,
    ;
    lemma_wrap_i32_eq(wx * y, x * y);
    lemma_wrap_i32_eq(x * wy, x * y);
}

/// `i32` with wrapping sum and product: the exact accumulator of the integer kernels.
impl Scalar for i32 {
    open spec fn zero_spec() -> i32 {
        0
    }

    open spec fn one_spec() -> i32 {
        1
    }

    open spec fn is_zero_spec(self) -> bool {
        self == 0
    }

    open spec fn is_one_spec(self) -> bool {
        self == 1
    }

    open spec fn plus_spec(self, other: i32) -> i32 {
        wrap_i32(self + other)
    }

    open spec fn times_spec(self, other: i32) -> i32 {
        wrap_i32(self * other)
    }

    proof fn constants_compare() {
    }

    fn zero() -> i32 {
        0
    }

    fn one() -> i32 {
        1
    }

    fn is_zero(self) -> bool {
        self == 0
    }

    fn is_one(self) -> bool {
        self == 1
    }

    fn plus(self, other: i32) -> i32 {
        self.wrapping_add(other)
    }

    fn times(self, other: i32) -> i32 {
        self.wrapping_mul(other)
    }
}

} // verus!
