//! Checks for callers that hold views by address rather than as slices.
//!
//! Such a view may have gaps, or run backwards. It is described by the address of its first
//! element and one dimension and stride per axis, and nothing here forms a reference to it.

use vstd::arithmetic::mul::*;
use vstd::prelude::*;

use crate::arith::{max_int, min_int};
use crate::error::{GemmError, Operand};
use crate::fused::BiasDim;
use crate::requant::{scale_error, RequantScale};

verus! {

/// What one axis adds to the offset of its last element.
pub open spec fn axis_reach(d: (usize, isize)) -> int {
    if d.0 <= 1 {
        0
    } else {
        (d.0 - 1) * d.1
    }
}

/// How far the first `n` axes lead below the first element.
pub open spec fn reach_below(dims: Seq<(usize, isize)>, n: int) -> int
    decreases n,
{
    if n <= 0 {
        0
    } else {
        reach_below(dims, n - 1) + min_int(axis_reach(dims[n - 1]), 0)
    }
}

/// How far the first `n` axes lead above the first element.
pub open spec fn reach_above(dims: Seq<(usize, isize)>, n: int) -> int
    decreases n,
{
    if n <= 0 {
        0
    } else {
        reach_above(dims, n - 1) + max_int(axis_reach(dims[n - 1]), 0)
    }
}

/// A view without elements.
pub open spec fn is_empty(dims: Seq<(usize, isize)>) -> bool {
    exists|k: int| 0 <= k < dims.len() && (#[trigger] dims[k]).0 == 0
}

/// The half-open range of addresses that a view touches.
pub open spec fn byte_range(base: usize, size: usize, dims: Seq<(usize, isize)>) -> (int, int) {
    if is_empty(dims) {
        (base as int, base as int)
    } else {
        (
            base + size * reach_below(dims, dims.len() as int),
            base + size * (reach_above(dims, dims.len() as int) + 1),
        )
    }
}

/// The range lies in the address space.
pub open spec fn addressable(base: usize, size: usize, dims: Seq<(usize, isize)>) -> bool {
    0 <= byte_range(base, size, dims).0 && byte_range(base, size, dims).1 <= usize::MAX && (
    !is_empty(dims) ==> -usize::MAX <= reach_below(dims, dims.len() as int) && reach_above(
        dims,
        dims.len() as int,
    ) <= usize::MAX)
}

/// What the axes lead to only grows with their number.
proof fn lemma_reach_grows(dims: Seq<(usize, isize)>, n: int, m: int)
    requires
        0 <= n <= m,
    ensures
        reach_below(dims, m) <= reach_below(dims, n) <= 0,
        0 <= reach_above(dims, n) <= reach_above(dims, m),
    decreases m,
{
    if n < m {
        lemma_reach_grows(dims, n, m - 1);
    } else if n > 0 {
        lemma_reach_grows(dims, n - 1, n - 1);
    }
}

/// The half-open byte range that a strided view touches. `base` is the address of its first
/// element and `size` that of an element in bytes; each axis is given by its dimension and its
/// stride in elements. A stride that leads backwards extends the range below the base, an axis
/// of length 1 does not extend it, and an empty view touches nothing.
pub fn c_byte_range(base: usize, size: usize, dims: &[(usize, isize)]) -> (r: (usize, usize))
    requires
        addressable(base, size, dims@),
    ensures
        (r.0 as int, r.1 as int) == byte_range(base, size, dims@),
{
    let ghost ds = dims@;
    let n: usize = dims.len();
    let mut k: usize = 0;
    while k < n
        invariant
            k <= n,
            n == ds.len(),
            ds == dims@,
            forall|x: int| 0 <= x < k ==> (#[trigger] ds[x]).0 != 0,
        decreases n - k,
    {
        if dims[k].0 == 0 {
            assert(ds[k as int].0 == 0);
            return (base, base);
        }
        k = k + 1;
    }
    assert(!is_empty(ds));
    let mut lo: i128 = 0;
    let mut hi: i128 = 0;
    k = 0;
    while k < n
        invariant
            k <= n,
            n == ds.len(),
            ds == dims@,
            lo == reach_below(ds, k as int),
            hi == reach_above(ds, k as int),
            -usize::MAX <= reach_below(ds, n as int),
            reach_above(ds, n as int) <= usize::MAX,
        decreases n - k,
    {
        let (d, s): (usize, isize) = dims[k];
        proof {
            lemma_reach_grows(ds, k as int, n as int);
            lemma_reach_grows(ds, k + 1, n as int);
        }
        if d > 1 {
            let e: i128 = (d - 1) as i128 * s as i128;
            if e < 0 {
                lo = lo + e;
            } else {
                hi = hi + e;
            }
        }
        k = k + 1;
    }
    proof {
        lemma_reach_grows(ds, n as int, n as int);
        let s = size as int;
        assert(-(usize::MAX as int) * (usize::MAX as int) <= s * lo <= 0) by (nonlinear_arith)
            requires
                0 <= s <= usize::MAX,
                -(usize::MAX as int) <= lo <= 0,
        ;
        assert(0 <= s * (hi + 1) <= (usize::MAX as int) * (usize::MAX + 1)) by (nonlinear_arith)
            requires
                0 <= s <= usize::MAX,
                0 <= hi <= usize::MAX,
        ;
    }
    (
        (base as i128 + size as i128 * lo) as usize,
        (base as i128 + size as i128 * (hi + 1)) as usize,
    )
}

/// The offset of an element, in elements.
pub open spec fn element_offset(dims: Seq<(usize, isize)>, at: Seq<int>, n: int) -> int
    decreases n,
{
    if n <= 0 {
        0
    } else {
        element_offset(dims, at, n - 1) + at[n - 1] * dims[n - 1].1
    }
}

/// `at` is an element of the view.
pub open spec fn is_element(dims: Seq<(usize, isize)>, at: Seq<int>) -> bool {
    &&& at.len() == dims.len()
    &&& forall|k: int| 0 <= k < dims.len() ==> 0 <= #[trigger] at[k] < dims[k].0
}

/// Every element lies between the two reaches.
proof fn lemma_offset_in_reach(dims: Seq<(usize, isize)>, at: Seq<int>, n: int)
    requires
        is_element(dims, at),
        0 <= n <= dims.len(),
    ensures
        reach_below(dims, n) <= element_offset(dims, at, n) <= reach_above(dims, n),
    decreases n,
{
    if n > 0 {
        lemma_offset_in_reach(dims, at, n - 1);
        let d = dims[n - 1];
        let i = at[n - 1];
        let s = d.1 as int;
        if d.0 <= 1 {
            lemma_mul_basics(s);
        } else if s < 0 {
            assert((d.0 - 1) * s <= i * s <= 0) by (nonlinear_arith)
                requires
                    0 <= i <= d.0 - 1,
                    s < 0,
            ;
        } else {
            assert(0 <= i * s <= (d.0 - 1) * s) by (nonlinear_arith)
                requires
                    0 <= i <= d.0 - 1,
                    s >= 0,
            ;
        }
    }
}

/// Every byte of every element of a view lies in its byte range.
pub proof fn law_byte_range_covers_every_element(
    base: usize,
    size: usize,
    dims: Seq<(usize, isize)>,
    at: Seq<int>,
)
    requires
        is_element(dims, at),
    ensures
        byte_range(base, size, dims).0 <= base + size * element_offset(
            dims,
            at,
            dims.len() as int,
        ),
        base + size * element_offset(dims, at, dims.len() as int) + size <= byte_range(
            base,
            size,
            dims,
        ).1,
{
    let n = dims.len() as int;
    assert(!is_empty(dims)) by {
        if is_empty(dims) {
            let k = choose|k: int| 0 <= k < dims.len() && (#[trigger] dims[k]).0 == 0;
            assert(0 <= at[k] < dims[k].0);
        }
    }
    lemma_offset_in_reach(dims, at, n);
    let (lo, x, hi) = (reach_below(dims, n), element_offset(dims, at, n), reach_above(dims, n));
    let s = size as int;
    assert(s * lo <= s * x && s * x + s <= s * (hi + 1)) by (nonlinear_arith)
        requires
            lo <= x <= hi,
            s >= 0,
    ;
}

/// The element that lies lowest (or highest, with `top`).
pub open spec fn extreme(dims: Seq<(usize, isize)>, top: bool) -> Seq<int> {
    Seq::new(
        dims.len(),
        |k: int|
            if (dims[k].1 < 0) != top {
                dims[k].0 - 1
            } else {
                0
            },
    )
}

/// The extreme elements reach the two ends.
proof fn lemma_extremes(dims: Seq<(usize, isize)>, n: int)
    requires
        !is_empty(dims),
        0 <= n <= dims.len(),
    ensures
        element_offset(dims, extreme(dims, false), n) == reach_below(dims, n),
        element_offset(dims, extreme(dims, true), n) == reach_above(dims, n),
    decreases n,
{
    if n > 0 {
        lemma_extremes(dims, n - 1);
        let d = dims[n - 1];
        assert(d.0 != 0);
        let s = d.1 as int;
        lemma_mul_basics(s);
        if d.0 > 1 {
            if s < 0 {
                assert((d.0 - 1) * s < 0) by (nonlinear_arith)
                    requires
                        d.0 > 1,
                        s < 0,
                ;
            } else {
                assert((d.0 - 1) * s >= 0) by (nonlinear_arith)
                    requires
                        d.0 > 1,
                        s >= 0,
                ;
            }
        }
    }
}

/// The byte range is no larger than it has to be: an element starts at its lower end, and one
/// ends at its upper end.
pub proof fn law_byte_range_is_tight(base: usize, size: usize, dims: Seq<(usize, isize)>)
    requires
        !is_empty(dims),
    ensures
        is_element(dims, extreme(dims, false)),
        is_element(dims, extreme(dims, true)),
        byte_range(base, size, dims).0 == base + size * element_offset(
            dims,
            extreme(dims, false),
            dims.len() as int,
        ),
        byte_range(base, size, dims).1 == base + size * element_offset(
            dims,
            extreme(dims, true),
            dims.len() as int,
        ) + size,
{
    let n = dims.len() as int;
    assert forall|k: int| 0 <= k < n implies dims[k].0 != 0 by {}
    lemma_extremes(dims, n);
    let hi = reach_above(dims, n);
    assert(size * (hi + 1) == size * hi + size) by (nonlinear_arith);
}

/// The bytes of a bias and those of the output overlap.
pub open spec fn bias_overlap(
    base: usize,
    size: usize,
    dims: Seq<(usize, isize)>,
    bias: usize,
    bias_size: usize,
    len: usize,
) -> bool {
    let (lo, hi) = byte_range(base, size, dims);
    lo != hi && len != 0 && lo < bias + len * bias_size && bias < hi
}

/// Whether a run of `len` elements of `bias_size` bytes at `bias` overlaps what a strided view
/// touches.
pub fn bias_overlaps_c(
    base: usize,
    size: usize,
    dims: &[(usize, isize)],
    bias: usize,
    bias_size: usize,
    len: usize,
) -> (r: bool)
    requires
        addressable(base, size, dims@),
        bias + len * bias_size <= usize::MAX,
    ensures
        r == bias_overlap(base, size, dims@, bias, bias_size, len),
{
    let (lo, hi): (usize, usize) = c_byte_range(base, size, dims);
    if lo == hi || len == 0 {
        return false;
    }
    proof {
        assert(0 <= len * bias_size) by (nonlinear_arith)
            requires
                len >= 0,
                bias_size >= 0,
        ;
    }
    let end: usize = bias + len * bias_size;
    lo < end && bias < hi
}

/// A vector by its address and its length.
#[derive(Clone, Copy, Debug, PartialEq, Eq, Structural)]
pub struct Run {
    pub addr: usize,
    pub len: usize,
}

/// Why a vector that has to hold `want` elements and stay clear of the output is refused.
pub open spec fn run_error(
    view: Operand,
    run: Run,
    size: usize,
    want: usize,
    base: usize,
    c_size: usize,
    dims: Seq<(usize, isize)>,
) -> Option<GemmError> {
    if run.len != want {
        Some(GemmError::LengthMismatch { view, want, len: run.len })
    } else if bias_overlap(base, c_size, dims, run.addr, size, run.len) {
        Some(GemmError::Aliasing { with: view })
    } else {
        None
    }
}

fn check_run(
    view: Operand,
    run: Run,
    size: usize,
    want: usize,
    base: usize,
    c_size: usize,
    dims: &[(usize, isize)],
) -> (r: Result<(), GemmError>)
    requires
        addressable(base, c_size, dims@),
        run.addr + run.len * size <= usize::MAX,
    ensures
        r == (match run_error(view, run, size, want, base, c_size, dims@) {
            Some(e) => Err::<(), GemmError>(e),
            None => Ok(()),
        }),
{
    if run.len != want {
        return Err(GemmError::LengthMismatch { view, want, len: run.len });
    }
    if bias_overlaps_c(base, c_size, dims, run.addr, size, run.len) {
        return Err(GemmError::Aliasing { with: view });
    }
    Ok(())
}

/// Check a bias against the shape and the footprint of the output: one value per row or per
/// column, clear of the output. Returns the axis, and whether there is a bias.
pub fn lower_bias(
    bias: Option<(BiasDim, Run)>,
    size: usize,
    m: usize,
    n: usize,
    base: usize,
    dims: &[(usize, isize)],
) -> (r: Result<(BiasDim, bool), GemmError>)
    requires
        addressable(base, size, dims@),
        bias matches Some((_, run)) ==> run.addr + run.len * size <= usize::MAX,
    ensures
        r == (match bias {
            None => Ok::<(BiasDim, bool), GemmError>((BiasDim::PerRow, false)),
            Some((dim, run)) => match run_error(
                Operand::Bias,
                run,
                size,
                if dim == BiasDim::PerRow {
                    m
                } else {
                    n
                },
                base,
                size,
                dims@,
            ) {
                Some(e) => Err(e),
                None => Ok((dim, true)),
            },
        }),
{
    match bias {
        None => Ok((BiasDim::PerRow, false)),
        Some((dim, run)) => {
            let want: usize = match dim {
                BiasDim::PerRow => m,
                BiasDim::PerCol => n,
            };
            match check_run(Operand::Bias, run, size, want, base, size, dims) {
                Ok(_) => Ok((dim, true)),
                Err(e) => Err(e),
            }
        },
    }
}

/// Check the `i32` bias of a requantizing product whose output elements have `c_size` bytes.
/// Returns whether there is one.
pub fn requant_bias(
    m: usize,
    base: usize,
    c_size: usize,
    dims: &[(usize, isize)],
    bias: Option<Run>,
) -> (r: Result<bool, GemmError>)
    requires
        addressable(base, c_size, dims@),
        bias matches Some(run) ==> run.addr + run.len * 4 <= usize::MAX,
    ensures
        r == (match bias {
            None => Ok::<bool, GemmError>(false),
            Some(run) => match run_error(Operand::Bias, run, 4, m, base, c_size, dims@) {
                Some(e) => Err(e),
                None => Ok(true),
            },
        }),
{
    match bias {
        None => Ok(false),
        Some(run) => match check_run(Operand::Bias, run, 4, m, base, c_size, dims) {
            Ok(_) => Ok(true),
            Err(e) => Err(e),
        },
    }
}

/// Check the scales of a requantizing product, which lie at `addr` where there is one per row.
/// The overlap is looked at before any scale is read. Returns whether there is one per row.
pub fn requant_scale<'a>(
    m: usize,
    base: usize,
    c_size: usize,
    dims: &[(usize, isize)],
    scale: RequantScale<'a>,
    addr: usize,
) -> (r: Result<bool, GemmError>)
    requires
        addressable(base, c_size, dims@),
        scale matches RequantScale::PerRow(s) ==> addr + s@.len() * 4 <= usize::MAX,
    ensures
        r == (match scale {
            RequantScale::PerTensor(_) => match scale_error(m, scale) {
                Some(e) => Err::<bool, GemmError>(e),
                None => Ok(false),
            },
            RequantScale::PerRow(s) => match run_error(
                Operand::Scales,
                (Run { addr, len: s@.len() as usize }),
                4,
                m,
                base,
                c_size,
                dims@,
            ) {
                Some(e) => Err(e),
                None => match scale_error(m, scale) {
                    Some(e) => Err(e),
                    None => Ok(true),
                },
            },
        }),
{
    if let RequantScale::PerRow(s) = scale {
        if let Err(e) = check_run(
            Operand::Scales,
            Run { addr, len: s.len() },
            4,
            m,
            base,
            c_size,
            dims,
        ) {
            return Err(e);
        }
    }
    match crate::requant::requant_scale(m, scale) {
        Ok(_) => Ok(
            match scale {
                RequantScale::PerRow(_) => true,
                RequantScale::PerTensor(_) => false,
            },
        ),
        Err(e) => Err(e),
    }
}

} // verus!
