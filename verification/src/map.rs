//! Products whose every stored element goes through a function of the caller's.

use vstd::prelude::*;

use crate::api::{gemm_views_error, validate_gemm_views, MatMut, MatRef};
use crate::dispatch::{lemma_written_ext, written, Operands};
use crate::element::{GemmScalar, Plain};
use crate::error::GemmError;
use crate::fused::{epi_runs, execute_fused, pre_epilogue, scaled_base};
use crate::gemm::{lemma_views_valid, operands_of};
use crate::homog::{gemm_element, Task};
use crate::kernel::Epilogue;
use crate::parallel::{default_context, Context, Parallelism};

verus! {

/// An element type that the map entries take. It holds its accumulator exactly, so the function
/// sees the very value that a plain product would store.
pub trait MapScalar: GemmScalar {
    proof fn map_is_exact()
        ensures
            Self::out_is_acc_spec(),
    ;
}

impl MapScalar for i32 {
    proof fn map_is_exact() {
    }
}

/// The epilogue that applies a function of the value and its row and column in the caller's
/// frame. When the product runs transposed, `swapped` exchanges them back.
pub struct MapEpi<'a, F> {
    pub f: &'a F,
    pub swapped: bool,
}

impl<'a, T: MapScalar, F: Fn(T, usize, usize) -> T> Epilogue<Plain<T>> for MapEpi<'a, F> {
    open spec fn accepts(&self, v: T::Acc, i: int, j: int) -> bool {
        if self.swapped {
            self.f.requires((T::narrow_spec(v), j as usize, i as usize))
        } else {
            self.f.requires((T::narrow_spec(v), i as usize, j as usize))
        }
    }

    open spec fn stores(&self, v: T::Acc, i: int, j: int, o: T) -> bool {
        if self.swapped {
            self.f.ensures((T::narrow_spec(v), j as usize, i as usize), o)
        } else {
            self.f.ensures((T::narrow_spec(v), i as usize, j as usize), o)
        }
    }

    open spec fn flip_spec(&self) -> MapEpi<'a, F> {
        MapEpi { f: self.f, swapped: !self.swapped }
    }

    fn apply(&self, v: T::Acc, i: usize, j: usize) -> (o: T) {
        if self.swapped {
            (self.f)(T::narrow(v), j, i)
        } else {
            (self.f)(T::narrow(v), i, j)
        }
    }

    fn flip(&self) -> (r: MapEpi<'a, F>) {
        MapEpi { f: self.f, swapped: !self.swapped }
    }

    proof fn flip_transposes(&self, v: T::Acc, i: int, j: int, o: T) {
    }
}

/// The value that the function is given is the one that the plain product would store.
proof fn lemma_map_sees_gemm<'a, T: MapScalar>(
    ctx: Context,
    o: Operands<'a, T>,
    alpha: T,
    beta: T,
    i: int,
    j: int,
    old: T,
)
    ensures
        T::narrow_spec(pre_epilogue(ctx, o, alpha, beta, i, j, old)) == gemm_element(
            ctx,
            o,
            alpha,
            beta,
            i,
            j,
            old,
        ),
{
    T::map_is_exact();
    T::exact_is_lossless(scaled_base(beta, old), old);
    T::exact_is_lossless(scaled_base(beta, old), T::zero_spec());
}

/// `C[r, c] <- f(alpha*A*B + beta*C, r, c)` for operands that are known to fit their slices, at
/// any offset and with strides of either sign.
pub fn gemm_map_unchecked_with<'a, T: MapScalar, F: Fn(T, usize, usize) -> T>(
    ctx: &Context,
    alpha: T,
    ops: Operands<'a, T>,
    beta: T,
    c: &mut [T],
    f: &F,
    par: Parallelism,
) -> (r: Result<(), GemmError>)
    requires
        ctx.kernels.valid(),
        ops.valid(old(c)@.len() as int),
        forall|v: T, i: usize, j: usize|
            i < ops.m && j < ops.n ==> #[trigger] f.requires((v, i, j)),
    ensures
        r == (if epi_runs(*ctx, par, ops, alpha) {
            Ok::<(), GemmError>(())
        } else {
            Err(GemmError::TooLarge)
        }),
        r is Ok ==> written(
            old(c)@,
            final(c)@,
            ops.lc,
            ops.m as int,
            ops.n as int,
            |i: int, j: int, x: T, y: T|
                f.ensures(
                    (gemm_element(*ctx, ops, alpha, beta, i, j, x), i as usize, j as usize),
                    y,
                ),
        ),
        r is Err ==> final(c)@ == old(c)@,
{
    let ghost c0 = c@;
    let epi: MapEpi<'_, F> = MapEpi { f, swapped: false };
    let r = execute_fused(
        ctx,
        Task { alpha, beta, ops },
        MapEpi { f, swapped: false },
        par,
        c,
    );
    match r {
        Ok(_) => {
            proof {
                let got = |i: int, j: int, x: T, y: T|
                    <MapEpi<'_, F> as Epilogue<Plain<T>>>::stores(
                        &epi,
                        pre_epilogue(*ctx, ops, alpha, beta, i, j, x),
                        i,
                        j,
                        y,
                    );
                let want = |i: int, j: int, x: T, y: T|
                    f.ensures(
                        (gemm_element(*ctx, ops, alpha, beta, i, j, x), i as usize, j as usize),
                        y,
                    );
                assert forall|i: int, j: int, x: T, y: T|
                    0 <= i < ops.m && 0 <= j < ops.n && #[trigger] got(i, j, x, y) implies want(
                    i,
                    j,
                    x,
                    y,
                ) by {
                    lemma_map_sees_gemm(*ctx, ops, alpha, beta, i, j, x);
                }
                lemma_written_ext(c0, c@, ops.lc, ops.m as int, ops.n as int, got, want);
            }
            Ok(())
        },
        Err(e) => Err(e),
    }
}

/// [`gemm_map_unchecked_with`] under the default context.
pub fn gemm_map_unchecked<'a, T: MapScalar, F: Fn(T, usize, usize) -> T>(
    alpha: T,
    ops: Operands<'a, T>,
    beta: T,
    c: &mut [T],
    f: &F,
    par: Parallelism,
) -> (r: Result<(), GemmError>)
    requires
        ops.valid(old(c)@.len() as int),
        forall|v: T, i: usize, j: usize|
            i < ops.m && j < ops.n ==> #[trigger] f.requires((v, i, j)),
    ensures
        r == (if epi_runs(default_context(), par, ops, alpha) {
            Ok::<(), GemmError>(())
        } else {
            Err(GemmError::TooLarge)
        }),
        r is Ok ==> written(
            old(c)@,
            final(c)@,
            ops.lc,
            ops.m as int,
            ops.n as int,
            |i: int, j: int, x: T, y: T|
                f.ensures(
                    (
                        gemm_element(default_context(), ops, alpha, beta, i, j, x),
                        i as usize,
                        j as usize,
                    ),
                    y,
                ),
        ),
        r is Err ==> final(c)@ == old(c)@,
{
    gemm_map_unchecked_with(&Context::new(), alpha, ops, beta, c, f, par)
}

/// `C[r, c] <- f(alpha*A*B + beta*C, r, c)` over strided views, under the given context: every
/// element is what `f` makes of the value that the plain product would have stored there. `f` is
/// given the row and the column in the caller's frame, and has to be total on C's shape.
pub fn gemm_map_with<'a, T: MapScalar, F: Fn(T, usize, usize) -> T>(
    ctx: &Context,
    alpha: T,
    a: MatRef<'a, T>,
    b: MatRef<'a, T>,
    beta: T,
    c: MatMut<'_, T>,
    f: &F,
    par: Parallelism,
) -> (r: Result<(), GemmError>)
    requires
        ctx.kernels.valid(),
        forall|v: T, i: usize, j: usize|
            i < c.rows && j < c.cols ==> #[trigger] f.requires((v, i, j)),
    ensures
        r == (match gemm_views_error(a.geometry(), b.geometry(), c.geometry()) {
            Some(e) => Err::<(), GemmError>(e),
            None => if epi_runs(*ctx, par, operands_of(a, b, c.layout_spec()), alpha) {
                Ok(())
            } else {
                Err(GemmError::TooLarge)
            },
        }),
        r is Ok ==> written(
            old(c.data)@,
            final(c.data)@,
            c.layout_spec(),
            c.rows as int,
            c.cols as int,
            |i: int, j: int, x: T, y: T|
                f.ensures(
                    (
                        gemm_element(
                            *ctx,
                            operands_of(a, b, c.layout_spec()),
                            alpha,
                            beta,
                            i,
                            j,
                            x,
                        ),
                        i as usize,
                        j as usize,
                    ),
                    y,
                ),
        ),
        r is Err ==> final(c.data)@ == old(c.data)@,
{
    if let Err(e) = validate_gemm_views(&a, &b, &c) {
        return Err(e);
    }
    proof {
        lemma_views_valid(a, b, c.geometry());
    }
    let ops: Operands<'a, T> = Operands {
        m: a.rows,
        k: a.cols,
        n: b.cols,
        a: a.data,
        la: a.layout(),
        b: b.data,
        lb: b.layout(),
        lc: c.layout(),
    };
    assert(ops == operands_of(a, b, c.layout_spec()));
    gemm_map_unchecked_with(ctx, alpha, ops, beta, c.data, f, par)
}

/// [`gemm_map_with`] under the default context.
pub fn gemm_map<'a, T: MapScalar, F: Fn(T, usize, usize) -> T>(
    alpha: T,
    a: MatRef<'a, T>,
    b: MatRef<'a, T>,
    beta: T,
    c: MatMut<'_, T>,
    f: &F,
    par: Parallelism,
) -> (r: Result<(), GemmError>)
    requires
        forall|v: T, i: usize, j: usize|
            i < c.rows && j < c.cols ==> #[trigger] f.requires((v, i, j)),
    ensures
        r == (match gemm_views_error(a.geometry(), b.geometry(), c.geometry()) {
            Some(e) => Err::<(), GemmError>(e),
            None => if epi_runs(
                default_context(),
                par,
                operands_of(a, b, c.layout_spec()),
                alpha,
            ) {
                Ok(())
            } else {
                Err(GemmError::TooLarge)
            },
        }),
        r is Ok ==> written(
            old(c.data)@,
            final(c.data)@,
            c.layout_spec(),
            c.rows as int,
            c.cols as int,
            |i: int, j: int, x: T, y: T|
                f.ensures(
                    (
                        gemm_element(
                            default_context(),
                            operands_of(a, b, c.layout_spec()),
                            alpha,
                            beta,
                            i,
                            j,
                            x,
                        ),
                        i as usize,
                        j as usize,
                    ),
                    y,
                ),
        ),
        r is Err ==> final(c.data)@ == old(c.data)@,
{
    gemm_map_with(&Context::new(), alpha, a, b, beta, c, f, par)
}

} // verus!
