//! The plain entries: `C <- alpha*A*B + beta*C`.

use vstd::prelude::*;

use crate::api::{
    gemm_views_error, law_extent_is_tight, law_no_self_alias_is_distinct, validate_gemm_views,
    Geometry, MatMut, MatRef,
};
use crate::dispatch::{written, Operands};
use crate::element::GemmScalar;
use crate::error::GemmError;
use crate::homog::{execute, gemm_element, gemm_runs, Task};
use crate::layout::Layout;
use crate::parallel::{default_context, Context, Parallelism};

verus! {

/// The operands of a product of views, with the layout of its output.
pub open spec fn operands_of<'a, T>(a: MatRef<'a, T>, b: MatRef<'a, T>, lc: Layout) -> Operands<
    'a,
    T,
> {
    Operands {
        m: a.rows,
        k: a.cols,
        n: b.cols,
        a: a.data,
        la: a.layout_spec(),
        b: b.data,
        lb: b.layout_spec(),
        lc,
    }
}

/// Views that pass the checks make a valid product.
pub proof fn lemma_views_valid<'a, T>(a: MatRef<'a, T>, b: MatRef<'a, T>, c: Geometry)
    requires
        gemm_views_error(a.geometry(), b.geometry(), c) is None,
    ensures
        operands_of(a, b, (Layout { off: 0, rs: c.rs, cs: c.cs })).valid(c.len),
{
    law_extent_is_tight(a.rows, a.cols, a.rs, a.cs);
    law_extent_is_tight(b.rows, b.cols, b.rs, b.cs);
    law_extent_is_tight(c.rows, c.cols, c.rs, c.cs);
    law_no_self_alias_is_distinct(c.rows, c.cols, c.rs, c.cs, 0);
}

/// `C <- alpha*A*B + beta*C` for operands that are known to fit their slices, at any offset and
/// with strides of either sign, under the given context.
pub fn gemm_unchecked_with<'a, T: GemmScalar>(
    ctx: &Context,
    alpha: T,
    ops: Operands<'a, T>,
    beta: T,
    c: &mut [T],
    par: Parallelism,
) -> (r: Result<(), GemmError>)
    requires
        ctx.kernels.valid(),
        ops.valid(old(c)@.len() as int),
    ensures
        r == (if gemm_runs(*ctx, par, ops, alpha) {
            Ok::<(), GemmError>(())
        } else {
            Err(GemmError::TooLarge)
        }),
        r is Ok ==> written(
            old(c)@,
            final(c)@,
            ops.lc,
            ops.m as int,
            ops.n as int,
            |i: int, j: int, x: T, y: T| y == gemm_element(*ctx, ops, alpha, beta, i, j, x),
        ),
        r is Err ==> final(c)@ == old(c)@,
{
    match execute(ctx, Task { alpha, beta, ops }, par, c) {
        Ok(_) => Ok(()),
        Err(e) => Err(e),
    }
}

/// [`gemm_unchecked_with`] under the default context.
pub fn gemm_unchecked<'a, T: GemmScalar>(
    alpha: T,
    ops: Operands<'a, T>,
    beta: T,
    c: &mut [T],
    par: Parallelism,
) -> (r: Result<(), GemmError>)
    requires
        ops.valid(old(c)@.len() as int),
    ensures
        r == (if gemm_runs(default_context(), par, ops, alpha) {
            Ok::<(), GemmError>(())
        } else {
            Err(GemmError::TooLarge)
        }),
        r is Ok ==> written(
            old(c)@,
            final(c)@,
            ops.lc,
            ops.m as int,
            ops.n as int,
            |i: int, j: int, x: T, y: T|
                y == gemm_element(default_context(), ops, alpha, beta, i, j, x),
        ),
        r is Err ==> final(c)@ == old(c)@,
{
    gemm_unchecked_with(&Context::new(), alpha, ops, beta, c, par)
}

/// `C <- alpha*A*B + beta*C` over strided views, under the given context.
///
/// A product that the checks refuse, or of which an internal size overflows, is an error and
/// writes nothing. Otherwise every element of C's view holds its result, and the rest of C's
/// slice is untouched. With a zero `beta` the old contents of C are not used.
pub fn gemm_with<'a, T: GemmScalar>(
    ctx: &Context,
    alpha: T,
    a: MatRef<'a, T>,
    b: MatRef<'a, T>,
    beta: T,
    c: MatMut<'_, T>,
    par: Parallelism,
) -> (r: Result<(), GemmError>)
    requires
        ctx.kernels.valid(),
    ensures
        r == (match gemm_views_error(a.geometry(), b.geometry(), c.geometry()) {
            Some(e) => Err::<(), GemmError>(e),
            None => if gemm_runs(*ctx, par, operands_of(a, b, c.layout_spec()), alpha) {
                Ok(())
            } else {
                Err(GemmError::TooLarge)
            },
        }),
        r is Ok ==> written(
            old(c.data)@,
            final(c.data)@,
            c.layout_spec(),
            c.rows as int,
            c.cols as int,
            |i: int, j: int, x: T, y: T|
                y == gemm_element(
                    *ctx,
                    operands_of(a, b, c.layout_spec()),
                    alpha,
                    beta,
                    i,
                    j,
                    x,
                ),
        ),
        r is Err ==> final(c.data)@ == old(c.data)@,
{
    if let Err(e) = validate_gemm_views(&a, &b, &c) {
        return Err(e);
    }
    proof {
        lemma_views_valid(a, b, c.geometry());
    }
    let ops: Operands<'a, T> = Operands {
        m: a.rows,
        k: a.cols,
        n: b.cols,
        a: a.data,
        la: a.layout(),
        b: b.data,
        lb: b.layout(),
        lc: c.layout(),
    };
    assert(ops == operands_of(a, b, c.layout_spec()));
    gemm_unchecked_with(ctx, alpha, ops, beta, c.data, par)
}

/// `C <- alpha*A*B + beta*C` over strided views: [`gemm_with`] under the default context.
pub fn gemm<'a, T: GemmScalar>(
    alpha: T,
    a: MatRef<'a, T>,
    b: MatRef<'a, T>,
    beta: T,
    c: MatMut<'_, T>,
    par: Parallelism,
) -> (r: Result<(), GemmError>)
    ensures
        r == (match gemm_views_error(a.geometry(), b.geometry(), c.geometry()) {
            Some(e) => Err::<(), GemmError>(e),
            None => if gemm_runs(
                default_context(),
                par,
                operands_of(a, b, c.layout_spec()),
                alpha,
            ) {
                Ok(())
            } else {
                Err(GemmError::TooLarge)
            },
        }),
        r is Ok ==> written(
            old(c.data)@,
            final(c.data)@,
            c.layout_spec(),
            c.rows as int,
            c.cols as int,
            |i: int, j: int, x: T, y: T|
                y == gemm_element(
                    default_context(),
                    operands_of(a, b, c.layout_spec()),
                    alpha,
                    beta,
                    i,
                    j,
                    x,
                ),
        ),
        r is Err ==> final(c.data)@ == old(c.data)@,
{
    gemm_with(&Context::new(), alpha, a, b, beta, c, par)
}

} // verus!
