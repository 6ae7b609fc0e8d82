//! Integer helpers: rounded division, saturating products, and their specifications.

use vstd::arithmetic::div_mod::*;
use vstd::arithmetic::mul::*;
use vstd::prelude::*;

verus! {

/// The least integer `q` with `q*b >= a`.
pub open spec fn div_up(a: int, b: int) -> int {
    if a % b == 0 {
        a / b
    } else {
        a / b + 1
    }
}

/// The least multiple of `b` that is at least `a`.
pub open spec fn round_up(a: int, b: int) -> int {
    div_up(a, b) * b
}

pub open spec fn min_int(a: int, b: int) -> int {
    if a <= b {
        a
    } else {
        b
    }
}

pub open spec fn max_int(a: int, b: int) -> int {
    if a >= b {
        a
    } else {
        b
    }
}

pub open spec fn abs_int(a: int) -> int {
    if a < 0 {
        -a
    } else {
        a
    }
}

/// `x`, or `usize::MAX` where `x` is larger.
pub open spec fn saturate(x: int) -> int {
    min_int(x, usize::MAX as int)
}

/// What makes `div_up` the rounded-up quotient.
pub proof fn lemma_div_up(a: int, b: int)
    requires
        a >= 0,
        b > 0,
    ensures
        a <= div_up(a, b) * b < a + b,
        0 <= div_up(a, b) <= a,
        a > 0 ==> div_up(a, b) >= 1,
        (div_up(a, b) - 1) * b < a,
        round_up(a, b) % b == 0,
        round_up(a, b) / b == div_up(a, b),
        a / b <= div_up(a, b),
{
    lemma_fundamental_div_mod(a, b);
    lemma_mod_bound(a, b);
    lemma_div_pos_is_pos(a, b);
    let q = a / b;
    assert((q + 1) * b == q * b + b) by (nonlinear_arith);
    assert(b * q == q * b) by (nonlinear_arith);
    assert(div_up(a, b) <= a) by (nonlinear_arith)
        requires
            a == b * q + a % b,
            b > 0,
            q >= 0,
            0 <= a % b,
            div_up(a, b) == (if a % b == 0 {
                q
            } else {
                q + 1
            }),
    ;
    let d = div_up(a, b);
    assert((d - 1) * b == d * b - b) by (nonlinear_arith);
    lemma_mod_multiples_basic(d, b);
    lemma_div_multiples_vanish(d, b);
    assert(d * b == b * d) by (nonlinear_arith);
}

/// `div_up` is the least quotient that reaches `a`.
pub proof fn lemma_div_up_least(a: int, b: int, q: int)
    requires
        a >= 0,
        b > 0,
        q * b >= a,
    ensures
        div_up(a, b) <= q,
        round_up(a, b) <= q * b,
{
    lemma_div_up(a, b);
    let d = div_up(a, b);
    assert(d <= q) by (nonlinear_arith)
        requires
            (d - 1) * b < a,
            q * b >= a,
            b > 0,
    ;
    assert(d * b <= q * b) by (nonlinear_arith)
        requires
            d <= q,
            b > 0,
    ;
}

/// A quotient is at least `q` exactly when `q*b` reaches no further than `a`.
pub proof fn lemma_div_bounds(a: int, b: int)
    requires
        a >= 0,
        b > 0,
    ensures
        0 <= a / b <= a,
        (a / b) * b <= a < (a / b) * b + b,
{
    lemma_fundamental_div_mod(a, b);
    lemma_mod_bound(a, b);
    lemma_div_pos_is_pos(a, b);
    assert(b * (a / b) == (a / b) * b) by (nonlinear_arith);
    assert(a / b <= a) by (nonlinear_arith)
        requires
            (a / b) * b <= a,
            a / b >= 0,
            b > 0,
    ;
}

/// Rounded-up division.
pub fn div_ceil(a: usize, b: usize) -> (r: usize)
    requires
        b > 0,
    ensures
        r == div_up(a as int, b as int),
        r <= a,
{
    proof {
        lemma_div_up(a as int, b as int);
    }
    if a % b == 0 {
        a / b
    } else {
        a / b + 1
    }
}

/// The least multiple of `b` that is at least `a`, or `None` where it overflows.
pub fn checked_next_multiple_of(a: usize, b: usize) -> (r: Option<usize>)
    requires
        b > 0,
    ensures
        r == (if round_up(a as int, b as int) <= usize::MAX {
            Some(round_up(a as int, b as int) as usize)
        } else {
            None
        }),
{
    let q: usize = div_ceil(a, b);
    q.checked_mul(b)
}

/// The least multiple of `b` that is at least `a`.
pub fn next_multiple_of(a: usize, b: usize) -> (r: usize)
    requires
        b > 0,
        round_up(a as int, b as int) <= usize::MAX,
    ensures
        r == round_up(a as int, b as int),
        r >= a,
{
    proof {
        lemma_div_up(a as int, b as int);
    }
    let q: usize = div_ceil(a, b);
    q * b
}

/// The product, held at `usize::MAX`.
pub fn saturating_mul(a: usize, b: usize) -> (r: usize)
    ensures
        r == saturate(a * b),
{
    match a.checked_mul(b) {
        Some(p) => p,
        None => usize::MAX,
    }
}

/// The magnitude of a stride.
pub fn unsigned_abs(s: isize) -> (r: usize)
    ensures
        r == abs_int(s as int),
{
    if s >= 0 {
        s as usize
    } else if s == isize::MIN {
        isize::MAX as usize + 1
    } else {
        (-s) as usize
    }
}

pub fn min_usize(a: usize, b: usize) -> (r: usize)
    ensures
        r == min_int(a as int, b as int),
{
    if a <= b {
        a
    } else {
        b
    }
}

pub fn max_usize(a: usize, b: usize) -> (r: usize)
    ensures
        r == max_int(a as int, b as int),
{
    if a >= b {
        a
    } else {
        b
    }
}

} // verus!
