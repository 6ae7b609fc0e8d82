//! Requantization: from an exact `i32` accumulator to a byte, by a positive scale, a zero point
//! and rounding to nearest with ties to even.
//!
//! A scale is given by the bit pattern of an IEEE single, and is taken at its exact value: the
//! only rounding is the one to an integer.

use vstd::arithmetic::div_mod::*;
use vstd::arithmetic::power2::*;
use vstd::prelude::*;

use crate::arith::{max_int, min_int};

verus! {

/// `2^23`, the weight of the hidden bit of a single's fraction.
pub const HIDDEN: u32 = 8388608;

/// A scale, as the bit pattern of an IEEE single.
#[derive(Clone, Copy, Debug, PartialEq, Eq, Structural)]
pub struct Scale {
    pub bits: u32,
}

impl Scale {
    /// The biased exponent.
    pub open spec fn exponent(self) -> int {
        (self.bits as int / HIDDEN as int) % 256
    }

    /// The fraction field.
    pub open spec fn fraction(self) -> int {
        self.bits as int % HIDDEN as int
    }

    /// The scale is finite and greater than zero.
    pub open spec fn usable(self) -> bool {
        &&& 0 < self.bits
        &&& self.bits < 0x8000_0000
        &&& self.exponent() < 255
    }

    /// The integer mantissa: the scale is `mantissa * 2^power`.
    pub open spec fn mantissa(self) -> int {
        if self.exponent() == 0 {
            self.fraction()
        } else {
            self.fraction() + HIDDEN
        }
    }

    /// See [`Scale::mantissa`].
    pub open spec fn power(self) -> int {
        max_int(self.exponent(), 1) - 150
    }

    /// `scale * v`, rounded to the nearest integer, ties to even.
    pub open spec fn rescaled(self, v: int) -> int {
        round_ne(
            self.mantissa() * v * pow2(max_int(self.power(), 0) as nat),
            pow2(max_int(-self.power(), 0) as nat) as int,
        )
    }

    /// Whether the scale is finite and greater than zero.
    pub fn is_usable(self) -> (r: bool)
        ensures
            r == self.usable(),
    {
        0 < self.bits && self.bits < 0x8000_0000 && (self.bits / HIDDEN) % 256 < 255
    }
}

/// `num / den` to the nearest integer, ties to even.
pub open spec fn round_ne(num: int, den: int) -> int {
    let q = num / den;
    let r = num % den;
    if 2 * r < den || (2 * r == den && q % 2 == 0) {
        q
    } else {
        q + 1
    }
}

/// Rounding to nearest is within half a unit of the exact quotient.
pub proof fn law_round_is_nearest(num: int, den: int)
    requires
        den > 0,
    ensures
        -den <= 2 * (round_ne(num, den) * den - num) <= den,
        2 * (round_ne(num, den) * den - num) == den || 2 * (round_ne(num, den) * den - num) == -den
            ==> round_ne(num, den) % 2 == 0,
{
    let q = num / den;
    lemma_fundamental_div_mod(num, den);
    lemma_mod_bound(num, den);
    assert((q + 1) * den == q * den + den && q * den == den * q) by (nonlinear_arith);
}

/// An integer within less than half a unit of a quotient is its rounding.
pub proof fn lemma_round_unique(num: int, den: int, x: int)
    requires
        den > 0,
        -den < 2 * (x * den - num) < den,
    ensures
        round_ne(num, den) == x,
{
    law_round_is_nearest(num, den);
    let y = round_ne(num, den);
    assert(y == x) by (nonlinear_arith)
        requires
            den > 0,
            -den < 2 * (x * den - num) < den,
            -den <= 2 * (y * den - num) <= den,
    ;
}

/// Rounding to nearest is odd: it mirrors at zero.
proof fn lemma_round_mirrors(num: int, den: int)
    requires
        den > 0,
    ensures
        round_ne(-num, den) == -round_ne(num, den),
{
    let x = round_ne(num, den);
    let y = round_ne(-num, den);
    law_round_is_nearest(num, den);
    law_round_is_nearest(-num, den);
    assert((-x) * den == -(x * den)) by (nonlinear_arith);
    if -den < 2 * (x * den - num) < den {
        lemma_round_unique(-num, den, -x);
    } else {
        assert(x % 2 == 0);
        assert(-1 <= x + y <= 1) by (nonlinear_arith)
            requires
                den > 0,
                -den <= 2 * (x * den - num) <= den,
                -den <= 2 * (y * den + num) <= den,
        ;
        if -den < 2 * (y * den + num) < den {
            assert((-y) * den == -(y * den)) by (nonlinear_arith);
            lemma_round_unique(num, den, -y);
        } else {
            assert(y % 2 == 0);
        }
    }
}

/// `v`, moved into `lo..=hi`.
pub open spec fn clamp(v: int, lo: int, hi: int) -> int {
    max_int(min_int(v, hi), lo)
}

/// `2^s`.
fn pow2_u64(s: u32) -> (r: u64)
    requires
        s <= 60,
    ensures
        r == pow2(s as nat),
        r > 0,
{
    let mut r: u64 = 1;
    let mut i: u32 = 0;
    proof {
        lemma2_to64();
        lemma2_to64_rest();
    }
    while i < s
        invariant
            i <= s <= 60,
            r == pow2(i as nat),
            r > 0,
        decreases s - i,
    {
        proof {
            lemma2_to64();
        lemma2_to64_rest();
            lemma_pow2_unfold((i + 1) as nat);
            if i < 59 {
                lemma_pow2_strictly_increases(i as nat, 59);
            }
        }
        r = r * 2;
        i = i + 1;
    }
    r
}

/// Round a magnitude over a power of two.
fn round_magnitude(a: u64, s: u32) -> (r: u64)
    requires
        s <= 60,
        a < 0x0080_0000_0000_0000,
    ensures
        r == round_ne(a as int, pow2(s as nat) as int),
        r <= a + 1,
{
    let den: u64 = pow2_u64(s);
    proof {
        lemma2_to64();
        lemma2_to64_rest();
        lemma_pow2_pos(s as nat);
        if s < 60 {
            lemma_pow2_strictly_increases(s as nat, 60);
        }
        lemma_div_pos_is_pos(a as int, den as int);
        lemma_div_nonincreasing(a as int, den as int);
    }
    let q: u64 = a / den;
    let r: u64 = a % den;
    assert(r < den);
    if 2 * r < den || (2 * r == den && q % 2 == 0) {
        q
    } else {
        q + 1
    }
}

impl Scale {
    /// The fields of a usable scale.
    proof fn lemma_fields(self)
        requires
            self.usable(),
        ensures
            0 < self.mantissa() < 16777216,
            self.power() >= 0 ==> self.mantissa() >= HIDDEN,
            -149 <= self.power() <= 104,
    {
        let b = self.bits as int;
        lemma_fundamental_div_mod(b, HIDDEN as int);
        lemma_mod_bound(b, HIDDEN as int);
        assert(0 <= b / (HIDDEN as int) < 256) by (nonlinear_arith)
            requires
                0 <= b < 0x8000_0000,
                b == 8388608 * (b / (HIDDEN as int)) + b % (HIDDEN as int),
                0 <= b % (HIDDEN as int) < 8388608,
                HIDDEN == 8388608,
        ;
    }

    /// `clamp(zp + round_ne(scale * v), lo, hi)`.
    pub fn requantize(self, v: i32, zp: i32, lo: i32, hi: i32) -> (r: i32)
        requires
            self.usable(),
            -1000 <= lo <= zp <= hi <= 1000,
        ensures
            r == clamp(zp + self.rescaled(v as int), lo as int, hi as int),
    {
        let e: u32 = (self.bits / HIDDEN) % 256;
        let f: u32 = self.bits % HIDDEN;
        let m: u32 = if e == 0 {
            f
        } else {
            f + HIDDEN
        };
        proof {
            self.lemma_fields();
            lemma2_to64();
        lemma2_to64_rest();
        }
        if e >= 150 {
            proof {
                let s = (e - 150) as nat;
                lemma_pow2_pos(s);
                let p = pow2(s) as int;
                let x = m * v * p;
                lemma_div_basics(x);
                lemma_small_mod(0, 1);
                assert(round_ne(x, 1) == x) by {
                    lemma_mod_self_0(1);
                    lemma_fundamental_div_mod(x, 1);
                    lemma_mod_bound(x, 1);
                }
                if v > 0 {
                    assert(x >= HIDDEN) by (nonlinear_arith)
                        requires
                            x == m * v * p,
                            v >= 1,
                            p >= 1,
                            m >= HIDDEN,
                    ;
                } else if v < 0 {
                    assert(x <= -(HIDDEN as int)) by (nonlinear_arith)
                        requires
                            x == m * v * p,
                            v <= -1,
                            p >= 1,
                            m >= HIDDEN,
                    ;
                } else {
                    assert(x == 0) by (nonlinear_arith)
                        requires
                            x == m * v * p,
                            v == 0,
                    ;
                }
            }
            return if v > 0 {
                hi
            } else if v < 0 {
                lo
            } else {
                zp
            };
        }
        let s: u32 = if e == 0 {
            149
        } else {
            150 - e
        };
        let a: u64 = if v < 0 {
            (-(v as i64)) as u64
        } else {
            v as u64
        };
        proof {
            let num = m * v;
            assert(num * pow2(0) == num);
            assert(self.rescaled(v as int) == round_ne(num, pow2(s as nat) as int));
            assert(m * a < 0x0080_0000_0000_0000) by (nonlinear_arith)
                requires
                    m < 16777216,
                    a <= 2147483648,
            ;
            if v < 0 {
                assert(m * v == -(m * a)) by (nonlinear_arith)
                    requires
                        a == -v,
                ;
                lemma_pow2_pos(s as nat);
                lemma_round_mirrors(m * a, pow2(s as nat) as int);
            }
        }
        let n: u64 = m as u64 * a;
        let q: u64 = if s > 60 {
            proof {
                lemma_pow2_strictly_increases(60, s as nat);
                lemma_round_unique(n as int, pow2(s as nat) as int, 0);
            }
            0
        } else {
            round_magnitude(n, s)
        };
        let x: i64 = if v < 0 {
            zp as i64 - q as i64
        } else {
            zp as i64 + q as i64
        };
        if x < lo as i64 {
            lo
        } else if x > hi as i64 {
            hi
        } else {
            x as i32
        }
    }
}

/// The two bytes that a product can be requantized to.
pub trait QuantOut: Copy {
    spec fn lo_spec() -> int;

    spec fn hi_spec() -> int;

    /// The byte as an integer.
    spec fn value(self) -> int;

    /// The byte of an integer in range.
    spec fn byte(v: int) -> Self;

    fn lo() -> (r: i32)
        ensures
            r == Self::lo_spec(),
            -1000 <= r <= Self::hi_spec(),
    ;

    fn hi() -> (r: i32)
        ensures
            r == Self::hi_spec(),
            Self::lo_spec() <= r <= 1000,
    ;

    fn from_clamped(v: i32) -> (r: Self)
        requires
            Self::lo_spec() <= v <= Self::hi_spec(),
        ensures
            r == Self::byte(v as int),
            r.value() == v,
    ;

    fn to_i32(self) -> (r: i32)
        ensures
            r == self.value(),
    ;
}

/// `v`, moved into the range of a byte.
pub fn saturate_byte<O: QuantOut>(v: i32) -> (r: O)
    ensures
        r == O::byte(clamp(v as int, O::lo_spec(), O::hi_spec())),
        r.value() == clamp(v as int, O::lo_spec(), O::hi_spec()),
{
    let (lo, hi): (i32, i32) = (O::lo(), O::hi());
    if v < lo {
        O::from_clamped(lo)
    } else if v > hi {
        O::from_clamped(hi)
    } else {
        O::from_clamped(v)
    }
}

impl QuantOut for i8 {
    open spec fn lo_spec() -> int {
        -128
    }

    open spec fn hi_spec() -> int {
        127
    }

    open spec fn value(self) -> int {
        self as int
    }

    open spec fn byte(v: int) -> i8 {
        v as i8
    }

    fn lo() -> i32 {
        -128
    }

    fn hi() -> i32 {
        127
    }

    fn from_clamped(v: i32) -> i8 {
        v as i8
    }

    fn to_i32(self) -> i32 {
        self as i32
    }
}

impl QuantOut for u8 {
    open spec fn lo_spec() -> int {
        0
    }

    open spec fn hi_spec() -> int {
        255
    }

    open spec fn value(self) -> int {
        self as int
    }

    open spec fn byte(v: int) -> u8 {
        v as u8
    }

    fn lo() -> i32 {
        0
    }

    fn hi() -> i32 {
        255
    }

    fn from_clamped(v: i32) -> u8 {
        v as u8
    }

    fn to_i32(self) -> i32 {
        self as i32
    }
}

} // verus!
