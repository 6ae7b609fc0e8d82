//! Many independent products in one call.

use vstd::arithmetic::mul::*;
use vstd::prelude::*;

use crate::api::{
    extent, extent_spec, gemm_views_error, law_extent_is_tight, law_no_self_alias_is_distinct,
    self_aliases, self_aliases_spec, validate_gemm_views, Geometry, MatMut, MatRef,
};
use crate::arith::saturate;
use crate::dispatch::{lemma_written_ext, written, Operands};
use crate::element::GemmScalar;
use crate::error::{first_error, outcome, GemmError, Operand};
use crate::fused::{
    epi_runs, execute_fused, fused_epi_spec, fused_element, fused_error, fused_runs, pre_epilogue,
    raw_bias, to_fused_epi, to_fused_epi_raw, validate_fused, Activation, Bias, BiasDim, FusedEpi,
    FusedScalar,
};
use crate::gemm::{gemm_with, operands_of};
use crate::homog::{execute, gemm_element, gemm_runs, Task};
use crate::kernel::Epilogue;
use crate::layout::Layout;
use crate::parallel::{default_context, Context, Parallelism};

verus! {

/// The layout of batch element `e`, when elements are `stride` apart.
pub open spec fn shifted(l: Layout, e: int, stride: int) -> Layout {
    Layout { off: (l.off + e * stride) as usize, rs: l.rs, cs: l.cs }
}

/// The layout of batch element `e`.
fn shift(l: Layout, e: usize, stride: isize) -> (r: Layout)
    requires
        0 <= l.off + e * stride <= usize::MAX,
    ensures
        r == shifted(l, e as int, stride as int),
{
    let d: i128 = e as i128 * stride as i128;
    Layout { off: (l.off as i128 + d) as usize, rs: l.rs, cs: l.cs }
}

/// The operands of a batch: those of its first element, and how far apart the elements are.
pub struct Batch<'a, T> {
    pub batch: usize,
    pub ops: Operands<'a, T>,
    pub a_stride: isize,
    pub b_stride: isize,
    pub c_stride: isize,
}

impl<'a, T> Batch<'a, T> {
    /// The operands of element `e`.
    pub open spec fn at(self, e: int) -> Operands<'a, T> {
        let o = self.ops;
        Operands {
            m: o.m,
            k: o.k,
            n: o.n,
            a: o.a,
            la: shifted(o.la, e, self.a_stride as int),
            b: o.b,
            lb: shifted(o.lb, e, self.b_stride as int),
            lc: shifted(o.lc, e, self.c_stride as int),
        }
    }

    /// No element's base is out of range.
    pub open spec fn addressable(self) -> bool {
        forall|e: int|
            0 <= e < self.batch ==> 0 <= self.ops.la.off + #[trigger] (e * self.a_stride)
                <= usize::MAX && 0 <= self.ops.lb.off + e * self.b_stride <= usize::MAX && 0
                <= self.ops.lc.off + e * self.c_stride <= usize::MAX
    }

    /// No two elements of the batch write to one place.
    pub open spec fn disjoint(self) -> bool {
        forall|e: int, f: int, x: int|
            0 <= e < self.batch && 0 <= f < self.batch && #[trigger] self.at(e).lc.covers(
                self.ops.m as int,
                self.ops.n as int,
                x,
            ) && #[trigger] self.at(f).lc.covers(self.ops.m as int, self.ops.n as int, x) ==> e
                == f
    }

    /// Every element is a valid product, and they write apart from each other.
    pub open spec fn valid(self, c_len: int) -> bool {
        &&& self.addressable()
        &&& self.disjoint()
        &&& forall|e: int| 0 <= e < self.batch ==> (#[trigger] self.at(e)).valid(c_len)
    }

    /// Some element writes at offset `x`.
    pub open spec fn covers(self, x: int) -> bool {
        exists|e: int|
            0 <= e < self.batch && (#[trigger] self.at(e)).lc.covers(
                self.ops.m as int,
                self.ops.n as int,
                x,
            )
    }

    /// Every output of every element satisfies `ok(e, i, j, before, after)`, and everything else
    /// is as it was.
    pub open spec fn written<O>(
        self,
        c0: Seq<O>,
        c: Seq<O>,
        ok: spec_fn(int, int, int, O, O) -> bool,
    ) -> bool {
        &&& c.len() == c0.len()
        &&& forall|e: int, i: int, j: int|
            0 <= e < self.batch && 0 <= i < self.ops.m && 0 <= j < self.ops.n ==> ok(
                e,
                i,
                j,
                c0[self.at(e).lc.idx(i, j)],
                c[#[trigger] self.at(e).lc.idx(i, j)],
            )
        &&& forall|x: int| 0 <= x < c.len() && !self.covers(x) ==> #[trigger] c[x] == c0[x]
    }
}

/// What is run for each element of a batch.
pub trait Body<T: GemmScalar> {
    /// The output shapes that the body takes.
    spec fn ready(&self, m: int, n: int) -> bool;

    /// Whether a product can be run.
    spec fn runs(&self, ctx: Context, par: Parallelism, o: Operands<'_, T>) -> bool;

    /// What the body makes of output `(i, j)`.
    spec fn gives(
        &self,
        ctx: Context,
        o: Operands<'_, T>,
        i: int,
        j: int,
        before: T,
        after: T,
    ) -> bool;

    fn run(&self, ctx: &Context, o: Operands<'_, T>, par: Parallelism, c: &mut [T]) -> (r: Result<
        (),
        GemmError,
    >)
        requires
            ctx.kernels.valid(),
            o.valid(old(c)@.len() as int),
            self.ready(o.m as int, o.n as int),
        ensures
            r == outcome(None, self.runs(*ctx, par, o)),
            r is Ok ==> written(
                old(c)@,
                final(c)@,
                o.lc,
                o.m as int,
                o.n as int,
                |i: int, j: int, x: T, y: T| self.gives(*ctx, o, i, j, x, y),
            ),
            r is Err ==> final(c)@ == old(c)@,
    ;

    /// Whether a product can be run depends on its shape, not on where it lies.
    proof fn runs_anywhere(
        &self,
        ctx: Context,
        par: Parallelism,
        b: Batch<'_, T>,
        e: int,
        f: int,
    )
        ensures
            self.runs(ctx, par, b.at(e)) == self.runs(ctx, par, b.at(f)),
    ;
}

/// The plain product.
struct PlainBody<T> {
    alpha: T,
    beta: T,
}

impl<T: GemmScalar> Body<T> for PlainBody<T> {
    closed spec fn ready(&self, m: int, n: int) -> bool {
        true
    }

    closed spec fn runs(&self, ctx: Context, par: Parallelism, o: Operands<'_, T>) -> bool {
        gemm_runs(ctx, par, o, self.alpha)
    }

    closed spec fn gives(
        &self,
        ctx: Context,
        o: Operands<'_, T>,
        i: int,
        j: int,
        before: T,
        after: T,
    ) -> bool {
        after == gemm_element(ctx, o, self.alpha, self.beta, i, j, before)
    }

    fn run(&self, ctx: &Context, o: Operands<'_, T>, par: Parallelism, c: &mut [T]) -> (r: Result<
        (),
        GemmError,
    >) {
        let ghost c0 = c@;
        match execute(ctx, Task { alpha: self.alpha, beta: self.beta, ops: o }, par, c) {
            Ok(_) => {
                proof {
                    lemma_written_ext(
                        c0,
                        c@,
                        o.lc,
                        o.m as int,
                        o.n as int,
                        |i: int, j: int, x: T, y: T|
                            y == gemm_element(*ctx, o, self.alpha, self.beta, i, j, x),
                        |i: int, j: int, x: T, y: T| self.gives(*ctx, o, i, j, x, y),
                    );
                }
                Ok(())
            },
            Err(e) => Err(e),
        }
    }

    proof fn runs_anywhere(
        &self,
        ctx: Context,
        par: Parallelism,
        b: Batch<'_, T>,
        e: int,
        f: int,
    ) {
    }
}

/// The product with an epilogue that every element shares.
struct FusedBody<'b, T> {
    alpha: T,
    beta: T,
    epi: FusedEpi<'b, T>,
}

impl<'b, T: FusedScalar> Body<T> for FusedBody<'b, T> {
    closed spec fn ready(&self, m: int, n: int) -> bool {
        self.epi.bias.covers(m, n)
    }

    closed spec fn runs(&self, ctx: Context, par: Parallelism, o: Operands<'_, T>) -> bool {
        epi_runs(ctx, par, o, self.alpha)
    }

    closed spec fn gives(
        &self,
        ctx: Context,
        o: Operands<'_, T>,
        i: int,
        j: int,
        before: T,
        after: T,
    ) -> bool {
        after == self.epi.value(
            pre_epilogue(ctx, o, self.alpha, self.beta, i, j, before),
            i,
            j,
        )
    }

    fn run(&self, ctx: &Context, o: Operands<'_, T>, par: Parallelism, c: &mut [T]) -> (r: Result<
        (),
        GemmError,
    >) {
        let ghost c0 = c@;
        let epi: FusedEpi<'b, T> = self.epi;
        match execute_fused(
            ctx,
            Task { alpha: self.alpha, beta: self.beta, ops: o },
            epi,
            par,
            c,
        ) {
            Ok(_) => {
                proof {
                    lemma_written_ext(
                        c0,
                        c@,
                        o.lc,
                        o.m as int,
                        o.n as int,
                        |i: int, j: int, x: T, y: T|
                            epi.stores(
                                pre_epilogue(*ctx, o, self.alpha, self.beta, i, j, x),
                                i,
                                j,
                                y,
                            ),
                        |i: int, j: int, x: T, y: T| self.gives(*ctx, o, i, j, x, y),
                    );
                }
                Ok(())
            },
            Err(e) => Err(e),
        }
    }

    proof fn runs_anywhere(
        &self,
        ctx: Context,
        par: Parallelism,
        b: Batch<'_, T>,
        e: int,
        f: int,
    ) {
    }
}

/// Run a body for each element of a batch. The elements are independent of each other, so the
/// order does not show.
fn run_batch<'a, T: GemmScalar, B: Body<T>>(
    ctx: &Context,
    b: Batch<'a, T>,
    body: &B,
    par: Parallelism,
    c: &mut [T],
) -> (r: Result<(), GemmError>)
    requires
        ctx.kernels.valid(),
        b.valid(old(c)@.len() as int),
        body.ready(b.ops.m as int, b.ops.n as int),
    ensures
        r == outcome(None, b.batch == 0 || body.runs(*ctx, par, b.at(0))),
        r is Ok ==> b.written(
            old(c)@,
            final(c)@,
            |e: int, i: int, j: int, x: T, y: T| body.gives(*ctx, b.at(e), i, j, x, y),
        ),
        r is Err ==> final(c)@ == old(c)@,
{
    let ghost c0 = c@;
    let ghost (m, n) = (b.ops.m as int, b.ops.n as int);
    let mut e: usize = 0;
    while e < b.batch
        invariant
            e <= b.batch,
            ctx.kernels.valid(),
            b.valid(c0.len() as int),
            body.ready(m, n),
            m == b.ops.m,
            n == b.ops.n,
            c@.len() == c0.len(),
            e > 0 ==> body.runs(*ctx, par, b.at(0)),
            forall|f: int, i: int, j: int|
                0 <= f < e && 0 <= i < m && 0 <= j < n ==> body.gives(
                    *ctx,
                    b.at(f),
                    i,
                    j,
                    c0[b.at(f).lc.idx(i, j)],
                    c@[#[trigger] b.at(f).lc.idx(i, j)],
                ),
            forall|f: int, i: int, j: int|
                e <= f < b.batch && 0 <= i < m && 0 <= j < n ==> c@[#[trigger] b.at(f).lc.idx(
                    i,
                    j,
                )] == c0[b.at(f).lc.idx(i, j)],
            forall|x: int| 0 <= x < c0.len() && !b.covers(x) ==> #[trigger] c@[x] == c0[x],
            e == 0 ==> c@ == c0,
            c0 == old(c)@,
        decreases b.batch - e,
    {
        let ghost ce = c@;
        assert(0 <= b.ops.la.off + e * b.a_stride <= usize::MAX);
        let oe: Operands<'a, T> = Operands {
            m: b.ops.m,
            k: b.ops.k,
            n: b.ops.n,
            a: b.ops.a,
            la: shift(b.ops.la, e, b.a_stride),
            b: b.ops.b,
            lb: shift(b.ops.lb, e, b.b_stride),
            lc: shift(b.ops.lc, e, b.c_stride),
        };
        assert(oe == b.at(e as int));
        proof {
            body.runs_anywhere(*ctx, par, b, e as int, 0);
        }
        let done = body.run(ctx, oe, par, c);
        if let Err(err) = done {
            return Err(err);
        }
        proof {
            assert forall|f: int, i: int, j: int|
                0 <= f < e + 1 && 0 <= i < m && 0 <= j < n implies body.gives(
                *ctx,
                b.at(f),
                i,
                j,
                c0[b.at(f).lc.idx(i, j)],
                c@[#[trigger] b.at(f).lc.idx(i, j)],
            ) by {
                let x = b.at(f).lc.idx(i, j);
                assert(b.at(f).valid(c0.len() as int));
                assert(b.at(f).lc.covers(m, n, x));
                if f < e {
                    assert(!oe.lc.covers(m, n, x));
                    assert(c@[x] == ce[x]);
                }
            }
            assert forall|f: int, i: int, j: int|
                e + 1 <= f < b.batch && 0 <= i < m && 0 <= j < n implies c@[#[trigger] b.at(
                f,
            ).lc.idx(i, j)] == c0[b.at(f).lc.idx(i, j)] by {
                let x = b.at(f).lc.idx(i, j);
                assert(b.at(f).valid(c0.len() as int));
                assert(b.at(f).lc.covers(m, n, x));
                assert(!oe.lc.covers(m, n, x));
                assert(c@[x] == ce[x]);
            }
            assert forall|x: int| 0 <= x < c0.len() && !b.covers(x) implies #[trigger] c@[x]
                == c0[x] by {
                assert(!oe.lc.covers(m, n, x));
            }
        }
        e = e + 1;
    }
    Ok(())
}

/// How many slice elements a batched view needs.
pub open spec fn batched_need(extent: int, batch: usize, stride: isize) -> int {
    if batch <= 1 {
        extent
    } else {
        (batch - 1) * stride + extent
    }
}

/// Why a batched view is refused.
pub open spec fn batched_view_error(
    g: Geometry,
    batch: usize,
    stride: isize,
    view: Operand,
) -> Option<GemmError> {
    match extent_spec(g.rows, g.cols, g.rs, g.cs) {
        None => Some(GemmError::Unaddressable { view }),
        Some(e) => if batch > 1 && stride < 0 {
            Some(GemmError::NegativeBatchStride { view })
        } else if batched_need(e, batch, stride) > g.len {
            Some(
                GemmError::OutOfBounds {
                    view,
                    need: saturate(batched_need(e, batch, stride)) as usize,
                    len: g.len as usize,
                },
            )
        } else {
            None
        },
    }
}

/// Check that every element of a batched view, the last one included, stays inside a slice of
/// `len` elements. Returns the extent of one element.
pub fn check_batched_view(
    len: usize,
    rows: usize,
    cols: usize,
    rs: isize,
    cs: isize,
    batch: usize,
    batch_stride: isize,
    view: Operand,
) -> (r: Result<usize, GemmError>)
    ensures
        match batched_view_error(
            (Geometry { len: len as int, rows, cols, rs, cs }),
            batch,
            batch_stride,
            view,
        ) {
            Some(e) => r == Err::<usize, GemmError>(e),
            None => r == Ok::<usize, GemmError>(extent_spec(rows, cols, rs, cs)->0 as usize),
        },
{
    let e: usize = match extent(rows, cols, rs, cs) {
        Some(e) => e,
        None => return Err(GemmError::Unaddressable { view }),
    };
    let last: Option<usize> = if batch <= 1 {
        Some(0)
    } else {
        if batch_stride < 0 {
            return Err(GemmError::NegativeBatchStride { view });
        }
        (batch - 1).checked_mul(batch_stride as usize)
    };
    let need: Option<usize> = match last {
        Some(v) => v.checked_add(e),
        None => None,
    };
    match need {
        Some(need) => if need > len {
            Err(GemmError::OutOfBounds { view, need, len })
        } else {
            Ok(e)
        },
        None => Err(GemmError::OutOfBounds { view, need: usize::MAX, len }),
    }
}

/// The first reason, in the order of the checks, why batched views do not make a batch of
/// products.
pub open spec fn batched_views_error(
    batch: usize,
    a: Geometry,
    a_stride: isize,
    b: Geometry,
    b_stride: isize,
    c: Geometry,
    c_stride: isize,
) -> Option<GemmError> {
    if a.cols != b.rows {
        Some(GemmError::InnerMismatch { a_cols: a.cols, b_rows: b.rows })
    } else if a.rows != c.rows {
        Some(GemmError::RowsMismatch { a_rows: a.rows, c_rows: c.rows })
    } else if b.cols != c.cols {
        Some(GemmError::ColsMismatch { b_cols: b.cols, c_cols: c.cols })
    } else {
        first_error(
            batched_view_error(a, batch, a_stride, Operand::A),
            first_error(
                batched_view_error(b, batch, b_stride, Operand::B),
                first_error(
                    batched_view_error(c, batch, c_stride, Operand::C),
                    if self_aliases_spec(c.rows, c.cols, c.rs, c.cs) {
                        Some(GemmError::SelfAliasing)
                    } else if batch > 1 && c_stride < extent_spec(c.rows, c.cols, c.rs, c.cs)->0 {
                        Some(
                            GemmError::BatchOverlap {
                                stride: c_stride as usize,
                                extent: extent_spec(c.rows, c.cols, c.rs, c.cs)->0 as usize,
                            },
                        )
                    } else {
                        None
                    },
                ),
            ),
        )
    }
}

/// The checks of a batch: the shapes agree, every element stays inside its slice, C addresses
/// each element uniquely, and the outputs clear each other.
pub fn validate_batched_views<T>(
    batch: usize,
    a: &MatRef<'_, T>,
    a_batch_stride: isize,
    b: &MatRef<'_, T>,
    b_batch_stride: isize,
    c: &MatMut<'_, T>,
    c_batch_stride: isize,
) -> (r: Result<(), GemmError>)
    ensures
        r == outcome(
            batched_views_error(
                batch,
                a.geometry(),
                a_batch_stride,
                b.geometry(),
                b_batch_stride,
                c.geometry(),
                c_batch_stride,
            ),
            true,
        ),
{
    if a.cols != b.rows {
        return Err(GemmError::InnerMismatch { a_cols: a.cols, b_rows: b.rows });
    }
    if a.rows != c.rows {
        return Err(GemmError::RowsMismatch { a_rows: a.rows, c_rows: c.rows });
    }
    if b.cols != c.cols {
        return Err(GemmError::ColsMismatch { b_cols: b.cols, c_cols: c.cols });
    }
    if let Err(e) = check_batched_view(
        a.data.len(),
        a.rows,
        a.cols,
        a.rs,
        a.cs,
        batch,
        a_batch_stride,
        Operand::A,
    ) {
        return Err(e);
    }
    if let Err(e) = check_batched_view(
        b.data.len(),
        b.rows,
        b.cols,
        b.rs,
        b.cs,
        batch,
        b_batch_stride,
        Operand::B,
    ) {
        return Err(e);
    }
    let c_extent: usize = match check_batched_view(
        c.data.len(),
        c.rows,
        c.cols,
        c.rs,
        c.cs,
        batch,
        c_batch_stride,
        Operand::C,
    ) {
        Ok(e) => e,
        Err(e) => return Err(e),
    };
    proof {
        law_extent_is_tight(c.rows, c.cols, c.rs, c.cs);
    }
    if self_aliases(c.rows, c.cols, c.rs, c.cs) {
        return Err(GemmError::SelfAliasing);
    }
    if batch > 1 && (c_batch_stride as usize) < c_extent {
        return Err(GemmError::BatchOverlap { stride: c_batch_stride as usize, extent: c_extent });
    }
    Ok(())
}

/// The batch that checked views describe.
pub open spec fn batch_of<'a, T>(
    batch: usize,
    a: MatRef<'a, T>,
    a_stride: isize,
    b: MatRef<'a, T>,
    b_stride: isize,
    lc: Layout,
    c_stride: isize,
) -> Batch<'a, T> {
    Batch { batch, ops: operands_of(a, b, lc), a_stride, b_stride, c_stride }
}

/// A batched view that passes its check keeps every element inside the slice.
proof fn lemma_batched_view(g: Geometry, batch: usize, stride: isize, view: Operand, e: int)
    requires
        batched_view_error(g, batch, stride, view) is None,
        g.len <= usize::MAX,
        0 <= e < batch,
    ensures
        0 <= e * stride <= usize::MAX,
        shifted((Layout { off: 0, rs: g.rs, cs: g.cs }), e, stride as int).fits(
            g.rows as int,
            g.cols as int,
            g.len,
        ),
        forall|i: int, j: int|
            0 <= i < g.rows && 0 <= j < g.cols ==> e * stride <= #[trigger] shifted(
                (Layout { off: 0, rs: g.rs, cs: g.cs }),
                e,
                stride as int,
            ).idx(i, j) < e * stride + extent_spec(g.rows, g.cols, g.rs, g.cs)->0,
{
    let l = Layout { off: 0, rs: g.rs, cs: g.cs };
    let x = extent_spec(g.rows, g.cols, g.rs, g.cs)->0;
    law_extent_is_tight(g.rows, g.cols, g.rs, g.cs);
    assert(x >= 0);
    if e == 0 {
        lemma_mul_basics(stride as int);
    } else {
        assert(0 <= e * stride <= (batch - 1) * stride) by (nonlinear_arith)
            requires
                0 <= e <= batch - 1,
                stride >= 0,
        ;
    }
    if batch <= 1 {
        assert(e * stride + x <= g.len);
    } else {
        assert(e * stride + x <= g.len);
    }
    let s = shifted(l, e, stride as int);
    assert forall|i: int, j: int| 0 <= i < g.rows && 0 <= j < g.cols implies e * stride
        <= #[trigger] s.idx(i, j) < e * stride + x by {
        assert(0 <= l.idx(i, j) < x);
        reveal(Layout::idx);
    }
}

/// Batched views that pass the checks make a valid batch. In particular its outputs are
/// pairwise disjoint.
pub proof fn law_batch_outputs_are_disjoint<'a, T>(
    batch: usize,
    a: MatRef<'a, T>,
    a_stride: isize,
    b: MatRef<'a, T>,
    b_stride: isize,
    c: Geometry,
    c_stride: isize,
)
    requires
        batched_views_error(
            batch,
            a.geometry(),
            a_stride,
            b.geometry(),
            b_stride,
            c,
            c_stride,
        ) is None,
        a.data@.len() <= usize::MAX,
        b.data@.len() <= usize::MAX,
        c.len <= usize::MAX,
    ensures
        batch_of(
            batch,
            a,
            a_stride,
            b,
            b_stride,
            (Layout { off: 0, rs: c.rs, cs: c.cs }),
            c_stride,
        ).valid(c.len),
{
    let lc = Layout { off: 0, rs: c.rs, cs: c.cs };
    let bt = batch_of(batch, a, a_stride, b, b_stride, lc, c_stride);
    let (m, n) = (c.rows as int, c.cols as int);
    let x = extent_spec(c.rows, c.cols, c.rs, c.cs)->0;
    assert forall|e: int| 0 <= e < batch implies 0 <= bt.ops.la.off + #[trigger] (e * bt.a_stride)
        <= usize::MAX && 0 <= bt.ops.lb.off + e * bt.b_stride <= usize::MAX && 0
        <= bt.ops.lc.off + e * bt.c_stride <= usize::MAX by {
        lemma_batched_view(a.geometry(), batch, a_stride, Operand::A, e);
        lemma_batched_view(b.geometry(), batch, b_stride, Operand::B, e);
        lemma_batched_view(c, batch, c_stride, Operand::C, e);
    }
    assert forall|e: int| 0 <= e < batch implies (#[trigger] bt.at(e)).valid(c.len) by {
        lemma_batched_view(a.geometry(), batch, a_stride, Operand::A, e);
        lemma_batched_view(b.geometry(), batch, b_stride, Operand::B, e);
        lemma_batched_view(c, batch, c_stride, Operand::C, e);
        law_no_self_alias_is_distinct(c.rows, c.cols, c.rs, c.cs, bt.at(e).lc.off);
    }
    assert forall|e: int, f: int, y: int|
        0 <= e < batch && 0 <= f < batch && #[trigger] bt.at(e).lc.covers(m, n, y)
            && #[trigger] bt.at(f).lc.covers(m, n, y) implies e == f by {
        lemma_batched_view(c, batch, c_stride, Operand::C, e);
        lemma_batched_view(c, batch, c_stride, Operand::C, f);
        assert(e * c_stride <= y < e * c_stride + x);
        assert(f * c_stride <= y < f * c_stride + x);
        if e < f {
            assert(e * c_stride + c_stride <= f * c_stride) by (nonlinear_arith)
                requires
                    e + 1 <= f,
                    c_stride >= 0,
            ;
        } else if f < e {
            assert(f * c_stride + c_stride <= e * c_stride) by (nonlinear_arith)
                requires
                    f + 1 <= e,
                    c_stride >= 0,
            ;
        }
    }
}

/// Two descriptions that agree on every element are interchangeable.
proof fn lemma_batch_written_ext<'a, T, O>(
    b: Batch<'a, T>,
    c0: Seq<O>,
    c: Seq<O>,
    ok1: spec_fn(int, int, int, O, O) -> bool,
    ok2: spec_fn(int, int, int, O, O) -> bool,
)
    requires
        b.written(c0, c, ok1),
        forall|e: int, i: int, j: int, x: O, y: O|
            #[trigger] ok1(e, i, j, x, y) ==> ok2(e, i, j, x, y),
    ensures
        b.written(c0, c, ok2),
{
    assert forall|e: int, i: int, j: int|
        0 <= e < b.batch && 0 <= i < b.ops.m && 0 <= j < b.ops.n implies ok2(
        e,
        i,
        j,
        c0[b.at(e).lc.idx(i, j)],
        c[#[trigger] b.at(e).lc.idx(i, j)],
    ) by {
        assert(ok1(e, i, j, c0[b.at(e).lc.idx(i, j)], c[b.at(e).lc.idx(i, j)]));
    }
}

/// [`gemm_batched_with`] for operands that are known to fit, at any offset and with strides of
/// either sign.
pub fn gemm_batched_unchecked_with<'a, T: GemmScalar>(
    ctx: &Context,
    alpha: T,
    b: Batch<'a, T>,
    beta: T,
    c: &mut [T],
    par: Parallelism,
) -> (r: Result<(), GemmError>)
    requires
        ctx.kernels.valid(),
        b.valid(old(c)@.len() as int),
    ensures
        r == outcome(None, b.batch == 0 || gemm_runs(*ctx, par, b.at(0), alpha)),
        r is Ok ==> b.written(
            old(c)@,
            final(c)@,
            |e: int, i: int, j: int, x: T, y: T|
                y == gemm_element(*ctx, b.at(e), alpha, beta, i, j, x),
        ),
        r is Err ==> final(c)@ == old(c)@,
{
    let ghost c0 = c@;
    let body: PlainBody<T> = PlainBody { alpha, beta };
    let r = run_batch(ctx, b, &body, par, c);
    proof {
        if r is Ok {
            lemma_batch_written_ext(
                b,
                c0,
                c@,
                |e: int, i: int, j: int, x: T, y: T| body.gives(*ctx, b.at(e), i, j, x, y),
                |e: int, i: int, j: int, x: T, y: T|
                    y == gemm_element(*ctx, b.at(e), alpha, beta, i, j, x),
            );
        }
    }
    r
}

/// `C_e <- alpha*A_e*B_e + beta*C_e` for every `e` in `0..batch`, under the given context.
///
/// The views describe element 0, and element `e` lies `e` batch strides further on. A zero batch
/// stride shares one operand among all elements; the outputs have to clear each other. Every
/// element holds what the plain product of that element would have stored.
pub fn gemm_batched_with<'a, T: GemmScalar>(
    ctx: &Context,
    batch: usize,
    alpha: T,
    a: MatRef<'a, T>,
    a_batch_stride: isize,
    b: MatRef<'a, T>,
    b_batch_stride: isize,
    beta: T,
    c: MatMut<'_, T>,
    c_batch_stride: isize,
    par: Parallelism,
) -> (r: Result<(), GemmError>)
    requires
        ctx.kernels.valid(),
    ensures
        r == outcome(
            if batch == 0 {
                None
            } else {
                batched_views_error(
                    batch,
                    a.geometry(),
                    a_batch_stride,
                    b.geometry(),
                    b_batch_stride,
                    c.geometry(),
                    c_batch_stride,
                )
            },
            batch == 0 || gemm_runs(
                *ctx,
                par,
                batch_of(
                    batch,
                    a,
                    a_batch_stride,
                    b,
                    b_batch_stride,
                    c.layout_spec(),
                    c_batch_stride,
                ).at(0),
                alpha,
            ),
        ),
        r is Ok ==> batch_of(
            batch,
            a,
            a_batch_stride,
            b,
            b_batch_stride,
            c.layout_spec(),
            c_batch_stride,
        ).written(
            old(c.data)@,
            final(c.data)@,
            |e: int, i: int, j: int, x: T, y: T|
                y == gemm_element(
                    *ctx,
                    batch_of(
                        batch,
                        a,
                        a_batch_stride,
                        b,
                        b_batch_stride,
                        c.layout_spec(),
                        c_batch_stride,
                    ).at(e),
                    alpha,
                    beta,
                    i,
                    j,
                    x,
                ),
        ),
        r is Err ==> final(c.data)@ == old(c.data)@,
{
    let ghost bt = batch_of(
        batch,
        a,
        a_batch_stride,
        b,
        b_batch_stride,
        c.layout_spec(),
        c_batch_stride,
    );
    if batch == 0 {
        return Ok(());
    }
    if let Err(e) = validate_batched_views(
        batch,
        &a,
        a_batch_stride,
        &b,
        b_batch_stride,
        &c,
        c_batch_stride,
    ) {
        return Err(e);
    }
    proof {
        assert(a.data.len() == a.data@.len());
        assert(b.data.len() == b.data@.len());
        assert(c.data.len() == c.data@.len());
        law_batch_outputs_are_disjoint(
            batch,
            a,
            a_batch_stride,
            b,
            b_batch_stride,
            c.geometry(),
            c_batch_stride,
        );
    }
    let ops: Operands<'a, T> = Operands {
        m: a.rows,
        k: a.cols,
        n: b.cols,
        a: a.data,
        la: a.layout(),
        b: b.data,
        lb: b.layout(),
        lc: c.layout(),
    };
    let bx: Batch<'a, T> = Batch {
        batch,
        ops,
        a_stride: a_batch_stride,
        b_stride: b_batch_stride,
        c_stride: c_batch_stride,
    };
    assert(bx == bt);
    gemm_batched_unchecked_with(ctx, alpha, bx, beta, c.data, par)
}

/// [`gemm_batched_with`] under the default context.
pub fn gemm_batched<'a, T: GemmScalar>(
    batch: usize,
    alpha: T,
    a: MatRef<'a, T>,
    a_batch_stride: isize,
    b: MatRef<'a, T>,
    b_batch_stride: isize,
    beta: T,
    c: MatMut<'_, T>,
    c_batch_stride: isize,
    par: Parallelism,
) -> (r: Result<(), GemmError>)
    ensures
        r == outcome(
            if batch == 0 {
                None
            } else {
                batched_views_error(
                    batch,
                    a.geometry(),
                    a_batch_stride,
                    b.geometry(),
                    b_batch_stride,
                    c.geometry(),
                    c_batch_stride,
                )
            },
            batch == 0 || gemm_runs(
                default_context(),
                par,
                batch_of(
                    batch,
                    a,
                    a_batch_stride,
                    b,
                    b_batch_stride,
                    c.layout_spec(),
                    c_batch_stride,
                ).at(0),
                alpha,
            ),
        ),
        r is Ok ==> batch_of(
            batch,
            a,
            a_batch_stride,
            b,
            b_batch_stride,
            c.layout_spec(),
            c_batch_stride,
        ).written(
            old(c.data)@,
            final(c.data)@,
            |e: int, i: int, j: int, x: T, y: T|
                y == gemm_element(
                    default_context(),
                    batch_of(
                        batch,
                        a,
                        a_batch_stride,
                        b,
                        b_batch_stride,
                        c.layout_spec(),
                        c_batch_stride,
                    ).at(e),
                    alpha,
                    beta,
                    i,
                    j,
                    x,
                ),
        ),
        r is Err ==> final(c.data)@ == old(c.data)@,
{
    gemm_batched_with(
        &Context::new(),
        batch,
        alpha,
        a,
        a_batch_stride,
        b,
        b_batch_stride,
        beta,
        c,
        c_batch_stride,
        par,
    )
}

/// `C_e <- act(alpha*A_e*B_e + beta*C_e + bias)` for every `e` in `0..batch`, under the given
/// context. One bias and one activation serve every element, and every element holds what the
/// fused product of that element would have stored.
pub fn gemm_batched_fused_with<'a, T: FusedScalar>(
    ctx: &Context,
    batch: usize,
    alpha: T,
    a: MatRef<'a, T>,
    a_batch_stride: isize,
    b: MatRef<'a, T>,
    b_batch_stride: isize,
    beta: T,
    c: MatMut<'_, T>,
    c_batch_stride: isize,
    bias: Option<Bias<'a, T>>,
    act: Option<Activation<T>>,
    par: Parallelism,
) -> (r: Result<(), GemmError>)
    requires
        ctx.kernels.valid(),
    ensures
        r == outcome(
            if batch == 0 {
                None
            } else {
                first_error(
                batched_views_error(
                    batch,
                    a.geometry(),
                    a_batch_stride,
                    b.geometry(),
                    b_batch_stride,
                    c.geometry(),
                    c_batch_stride,
                ), fused_error(bias, act, a.rows, b.cols))
            },
            batch == 0 || fused_runs(
                *ctx,
                par,
                batch_of(
                    batch,
                    a,
                    a_batch_stride,
                    b,
                    b_batch_stride,
                    c.layout_spec(),
                    c_batch_stride,
                ).at(0),
                alpha,
                bias,
                act,
            ),
        ),
        r is Ok ==> batch_of(
            batch,
            a,
            a_batch_stride,
            b,
            b_batch_stride,
            c.layout_spec(),
            c_batch_stride,
        ).written(
            old(c.data)@,
            final(c.data)@,
            |e: int, i: int, j: int, x: T, y: T|
                y == fused_element(
                    *ctx,
                    batch_of(
                        batch,
                        a,
                        a_batch_stride,
                        b,
                        b_batch_stride,
                        c.layout_spec(),
                        c_batch_stride,
                    ).at(e),
                    alpha,
                    beta,
                    bias,
                    act,
                    i,
                    j,
                    x,
                ),
        ),
        r is Err ==> final(c.data)@ == old(c.data)@,
{
    let ghost c0 = c.data@;
    let ghost bt = batch_of(
        batch,
        a,
        a_batch_stride,
        b,
        b_batch_stride,
        c.layout_spec(),
        c_batch_stride,
    );
    if batch == 0 {
        return Ok(());
    }
    if bias.is_none() && act.is_none() {
        let r = gemm_batched_with(
            ctx,
            batch,
            alpha,
            a,
            a_batch_stride,
            b,
            b_batch_stride,
            beta,
            MatMut { data: &mut *c.data, rows: c.rows, cols: c.cols, rs: c.rs, cs: c.cs },
            c_batch_stride,
            par,
        );
        proof {
            if r is Ok {
                lemma_batch_written_ext(
                    bt,
                    c0,
                    c.data@,
                    |e: int, i: int, j: int, x: T, y: T|
                        y == gemm_element(*ctx, bt.at(e), alpha, beta, i, j, x),
                    |e: int, i: int, j: int, x: T, y: T|
                        y == fused_element(*ctx, bt.at(e), alpha, beta, bias, act, i, j, x),
                );
            }
        }
        return r;
    }
    if let Err(e) = validate_batched_views(
        batch,
        &a,
        a_batch_stride,
        &b,
        b_batch_stride,
        &c,
        c_batch_stride,
    ) {
        return Err(e);
    }
    if let Err(e) = validate_fused(&bias, &act, a.rows, b.cols) {
        return Err(e);
    }
    let epi: FusedEpi<'a, T> = to_fused_epi(bias, act);
    proof {
        assert(a.data.len() == a.data@.len());
        assert(b.data.len() == b.data@.len());
        assert(c.data.len() == c.data@.len());
        law_batch_outputs_are_disjoint(
            batch,
            a,
            a_batch_stride,
            b,
            b_batch_stride,
            c.geometry(),
            c_batch_stride,
        );
    }
    let ops: Operands<'a, T> = Operands {
        m: a.rows,
        k: a.cols,
        n: b.cols,
        a: a.data,
        la: a.layout(),
        b: b.data,
        lb: b.layout(),
        lc: c.layout(),
    };
    let bx: Batch<'a, T> = Batch {
        batch,
        ops,
        a_stride: a_batch_stride,
        b_stride: b_batch_stride,
        c_stride: c_batch_stride,
    };
    assert(bx == bt);
    let body: FusedBody<'a, T> = FusedBody { alpha, beta, epi };
    let r = run_batch(ctx, bx, &body, par, c.data);
    proof {
        if r is Ok {
            lemma_batch_written_ext(
                bt,
                c0,
                c.data@,
                |e: int, i: int, j: int, x: T, y: T| body.gives(*ctx, bt.at(e), i, j, x, y),
                |e: int, i: int, j: int, x: T, y: T|
                    y == fused_element(*ctx, bt.at(e), alpha, beta, bias, act, i, j, x),
            );
        }
    }
    r
}

/// [`gemm_batched_fused_with`] under the default context.
pub fn gemm_batched_fused<'a, T: FusedScalar>(
    batch: usize,
    alpha: T,
    a: MatRef<'a, T>,
    a_batch_stride: isize,
    b: MatRef<'a, T>,
    b_batch_stride: isize,
    beta: T,
    c: MatMut<'_, T>,
    c_batch_stride: isize,
    bias: Option<Bias<'a, T>>,
    act: Option<Activation<T>>,
    par: Parallelism,
) -> (r: Result<(), GemmError>)
    ensures
        r == outcome(
            if batch == 0 {
                None
            } else {
                first_error(
                batched_views_error(
                    batch,
                    a.geometry(),
                    a_batch_stride,
                    b.geometry(),
                    b_batch_stride,
                    c.geometry(),
                    c_batch_stride,
                ), fused_error(bias, act, a.rows, b.cols))
            },
            batch == 0 || fused_runs(
                default_context(),
                par,
                batch_of(
                    batch,
                    a,
                    a_batch_stride,
                    b,
                    b_batch_stride,
                    c.layout_spec(),
                    c_batch_stride,
                ).at(0),
                alpha,
                bias,
                act,
            ),
        ),
        r is Ok ==> batch_of(
            batch,
            a,
            a_batch_stride,
            b,
            b_batch_stride,
            c.layout_spec(),
            c_batch_stride,
        ).written(
            old(c.data)@,
            final(c.data)@,
            |e: int, i: int, j: int, x: T, y: T|
                y == fused_element(
                    default_context(),
                    batch_of(
                        batch,
                        a,
                        a_batch_stride,
                        b,
                        b_batch_stride,
                        c.layout_spec(),
                        c_batch_stride,
                    ).at(e),
                    alpha,
                    beta,
                    bias,
                    act,
                    i,
                    j,
                    x,
                ),
        ),
        r is Err ==> final(c.data)@ == old(c.data)@,
{
    gemm_batched_fused_with(
        &Context::new(),
        batch,
        alpha,
        a,
        a_batch_stride,
        b,
        b_batch_stride,
        beta,
        c,
        c_batch_stride,
        bias,
        act,
        par,
    )
}

/// One element of a batch of products that each have a shape of their own.
pub struct BatchProblem<'a, T> {
    pub alpha: T,
    pub a: MatRef<'a, T>,
    pub b: MatRef<'a, T>,
    pub beta: T,
    pub c: MatMut<'a, T>,
}

impl<'a, T: GemmScalar> BatchProblem<'a, T> {
    /// Why the element is refused.
    pub open spec fn error(self) -> Option<GemmError> {
        gemm_views_error(self.a.geometry(), self.b.geometry(), self.c.geometry())
    }

    /// The operands of the element.
    pub open spec fn ops(self) -> Operands<'a, T> {
        operands_of(self.a, self.b, self.c.layout_spec())
    }

    /// The element before and after its product has been run.
    pub open spec fn done(self, ctx: Context, after: Seq<T>) -> bool {
        written(
            self.c.data@,
            after,
            self.c.layout_spec(),
            self.c.rows as int,
            self.c.cols as int,
            |i: int, j: int, x: T, y: T|
                y == gemm_element(ctx, self.ops(), self.alpha, self.beta, i, j, x),
        )
    }
}

/// Two states of one element: only the contents of C may differ.
pub open spec fn same_problem<'a, T>(p: BatchProblem<'a, T>, q: BatchProblem<'a, T>) -> bool {
    &&& p.alpha == q.alpha
    &&& p.a == q.a
    &&& p.b == q.b
    &&& p.beta == q.beta
    &&& p.c.rows == q.c.rows
    &&& p.c.cols == q.c.cols
    &&& p.c.rs == q.c.rs
    &&& p.c.cs == q.c.cs
    &&& p.c.data@.len() == q.c.data@.len()
}

/// Check every element, before any is run.
fn validate_problems<'a, T: GemmScalar>(problems: &[BatchProblem<'a, T>]) -> (r: Result<
    (),
    (usize, GemmError),
>)
    ensures
        match r {
            Ok(_) => forall|i: int|
                0 <= i < problems@.len() ==> (#[trigger] problems@[i]).error() is None,
            Err((at, e)) => {
                &&& at < problems@.len()
                &&& problems@[at as int].error() == Some(e)
                &&& forall|i: int| 0 <= i < at ==> (#[trigger] problems@[i]).error() is None
            },
        },
{
    let mut at: usize = 0;
    while at < problems.len()
        invariant
            at <= problems@.len(),
            forall|i: int| 0 <= i < at ==> (#[trigger] problems@[i]).error() is None,
        decreases problems@.len() - at,
    {
        let p = &problems[at];
        if let Err(e) = validate_gemm_views(&p.a, &p.b, &p.c) {
            return Err((at, e));
        }
        at = at + 1;
    }
    Ok(())
}

/// How a batch of products with views of their own goes from `p` to `q`: the first `done`
/// elements have been run, and the others are as they were.
pub open spec fn ran<'a, T: GemmScalar>(
    ctx: Context,
    par: Parallelism,
    p: Seq<BatchProblem<'a, T>>,
    q: Seq<BatchProblem<'a, T>>,
    done: int,
) -> bool {
    &&& q.len() == p.len()
    &&& forall|i: int|
        0 <= i < p.len() ==> same_problem(p[i], #[trigger] q[i]) && if i < done {
            gemm_runs(ctx, par, p[i].ops(), p[i].alpha) && p[i].done(ctx, q[i].c.data@)
        } else {
            q[i].c.data@ == p[i].c.data@
        }
}

/// Every element passes the checks.
pub open spec fn all_checked<'a, T: GemmScalar>(p: Seq<BatchProblem<'a, T>>) -> bool {
    forall|i: int| 0 <= i < p.len() ==> (#[trigger] p[i]).error() is None
}

/// How a batch of products with views of their own ends.
pub open spec fn batch_outcome<'a, T: GemmScalar>(
    ctx: Context,
    par: Parallelism,
    p: Seq<BatchProblem<'a, T>>,
    q: Seq<BatchProblem<'a, T>>,
    r: Result<(), (usize, GemmError)>,
) -> bool {
    match r {
        Ok(_) => all_checked(p) && ran(ctx, par, p, q, p.len() as int),
        Err((at, e)) => {
            &&& at < p.len()
            &&& if p[at as int].error() is Some {
                &&& p[at as int].error() == Some(e)
                &&& all_checked(p.take(at as int))
                &&& ran(ctx, par, p, q, 0)
            } else {
                &&& e == GemmError::TooLarge
                &&& !gemm_runs(ctx, par, p[at as int].ops(), p[at as int].alpha)
                &&& all_checked(p)
                &&& ran(ctx, par, p, q, at as int)
            }
        },
    }
}

/// Run one element.
fn run_problem<'a, T: GemmScalar>(
    ctx: &Context,
    p: &mut BatchProblem<'a, T>,
    par: Parallelism,
) -> (r: Result<(), GemmError>)
    requires
        ctx.kernels.valid(),
        old(p).error() is None,
    ensures
        r == outcome(None, gemm_runs(*ctx, par, old(p).ops(), old(p).alpha)),
        same_problem(*old(p), *final(p)),
        final(final(p).c.data)@ == final(old(p).c.data)@,
        r is Ok ==> old(p).done(*ctx, final(p).c.data@),
        r is Err ==> final(p).c.data@ == old(p).c.data@,
{
    let ghost p0 = *p;
    let ghost c0 = p.c.data@;
    let ghost lc = p.c.layout_spec();
    let (a, b): (MatRef<'a, T>, MatRef<'a, T>) = (p.a, p.b);
    let (alpha, beta): (T, T) = (p.alpha, p.beta);
    let r = gemm_with(
        ctx,
        alpha,
        a,
        b,
        beta,
        MatMut { data: &mut *p.c.data, rows: p.c.rows, cols: p.c.cols, rs: p.c.rs, cs: p.c.cs },
        par,
    );
    proof {
        if r is Ok {
            lemma_written_ext(
                c0,
                p.c.data@,
                lc,
                p.c.rows as int,
                p.c.cols as int,
                |i: int, j: int, x: T, y: T|
                    y == gemm_element(*ctx, operands_of(a, b, lc), alpha, beta, i, j, x),
                |i: int, j: int, x: T, y: T|
                    y == gemm_element(*ctx, p0.ops(), p0.alpha, p0.beta, i, j, x),
            );
        }
    }
    r
}

/// `C <- alpha*A*B + beta*C` for every element, each with views of its own, under the given
/// context.
///
/// Every element is checked before any is run, and the error names the first one that is
/// refused. Should an element be too large, the elements before it have been run.
pub fn gemm_batched_slice_with<'a, T: GemmScalar>(
    ctx: &Context,
    problems: &mut [BatchProblem<'a, T>],
    par: Parallelism,
) -> (r: Result<(), (usize, GemmError)>)
    requires
        ctx.kernels.valid(),
    ensures
        batch_outcome(*ctx, par, old(problems)@, final(problems)@, r),
        forall|i: int|
            0 <= i < old(problems)@.len() ==> final((#[trigger] final(problems)@[i]).c.data)@
                == final(old(problems)@[i].c.data)@,
{
    if let Err(e) = validate_problems(problems) {
        return Err(e);
    }
    let ghost p0 = problems@;
    let mut at: usize = 0;
    while at < problems.len()
        invariant
            ctx.kernels.valid(),
            p0 == old(problems)@,
            at <= p0.len(),
            all_checked(p0),
            ran(*ctx, par, p0, problems@, at as int),
            forall|i: int|
                0 <= i < p0.len() ==> final((#[trigger] problems@[i]).c.data)@
                    == final(p0[i].c.data)@,
        decreases p0.len() - at,
    {
        assert(same_problem(p0[at as int], problems@[at as int]));
        assert(p0[at as int].error() is None);
        if let Err(e) = run_problem(ctx, &mut problems[at], par) {
            return Err((at, e));
        }
        at = at + 1;
    }
    Ok(())
}

/// [`gemm_batched_slice_with`] under the default context.
pub fn gemm_batched_slice<'a, T: GemmScalar>(
    problems: &mut [BatchProblem<'a, T>],
    par: Parallelism,
) -> (r: Result<(), (usize, GemmError)>)
    ensures
        batch_outcome(default_context(), par, old(problems)@, final(problems)@, r),
        forall|i: int|
            0 <= i < old(problems)@.len() ==> final((#[trigger] final(problems)@[i]).c.data)@
                == final(old(problems)@[i].c.data)@,
{
    gemm_batched_slice_with(&Context::new(), problems, par)
}

/// One element of a batch of products that each have a shape of their own and write to one
/// common slice, at any offset and with strides of either sign.
pub struct GemmProblem<'a, T> {
    pub alpha: T,
    pub beta: T,
    pub ops: Operands<'a, T>,
}

impl<'a, T: GemmScalar> GemmProblem<'a, T> {
    /// The element as a product of its own.
    pub fn task(&self) -> (r: Task<'a, T>)
        ensures
            r == (Task { alpha: self.alpha, beta: self.beta, ops: self.ops }),
    {
        Task { alpha: self.alpha, beta: self.beta, ops: self.ops }
    }

    /// The element writes at offset `x`.
    pub open spec fn covers(self, x: int) -> bool {
        self.ops.lc.covers(self.ops.m as int, self.ops.n as int, x)
    }

    /// What the element's product may leave in the slice.
    pub open spec fn done(self, ctx: Context, before: Seq<T>, after: Seq<T>) -> bool {
        forall|i: int, j: int|
            0 <= i < self.ops.m && 0 <= j < self.ops.n ==> after[#[trigger] self.ops.lc.idx(i, j)]
                == gemm_element(
                ctx,
                self.ops,
                self.alpha,
                self.beta,
                i,
                j,
                before[self.ops.lc.idx(i, j)],
            )
    }
}

/// Every element is a valid product, and no two write to one place.
pub open spec fn problems_valid<'a, T: GemmScalar>(p: Seq<GemmProblem<'a, T>>, c_len: int) -> bool {
    &&& forall|e: int| 0 <= e < p.len() ==> (#[trigger] p[e]).ops.valid(c_len)
    &&& forall|e: int, f: int, x: int|
        0 <= e < p.len() && 0 <= f < p.len() && #[trigger] p[e].covers(x) && #[trigger] p[f].covers(
            x,
        ) ==> e == f
}

/// The first `done` elements have been run, and nothing else has changed.
pub open spec fn ran_into<'a, T: GemmScalar>(
    ctx: Context,
    par: Parallelism,
    p: Seq<GemmProblem<'a, T>>,
    before: Seq<T>,
    after: Seq<T>,
    done: int,
) -> bool {
    &&& after.len() == before.len()
    &&& forall|e: int|
        0 <= e < done ==> gemm_runs(ctx, par, p[e].ops, p[e].alpha) && (#[trigger] p[e]).done(
            ctx,
            before,
            after,
        )
    &&& forall|x: int|
        0 <= x < before.len() && (forall|e: int| 0 <= e < done ==> !(#[trigger] p[e]).covers(x))
            ==> #[trigger] after[x] == before[x]
}

/// `C <- alpha*A*B + beta*C` for every element of a batch that is known to be valid, under the
/// given context. Should an element be too large, the error names it, and the elements before it
/// have been run.
pub fn gemm_batched_ptr_unchecked_with<'a, T: GemmScalar>(
    ctx: &Context,
    problems: &[GemmProblem<'a, T>],
    par: Parallelism,
    c: &mut [T],
) -> (r: Result<(), usize>)
    requires
        ctx.kernels.valid(),
        problems_valid(problems@, old(c)@.len() as int),
    ensures
        match r {
            Ok(_) => ran_into(
                *ctx,
                par,
                problems@,
                old(c)@,
                final(c)@,
                problems@.len() as int,
            ),
            Err(at) => at < problems@.len() && !gemm_runs(
                *ctx,
                par,
                problems@[at as int].ops,
                problems@[at as int].alpha,
            ) && ran_into(*ctx, par, problems@, old(c)@, final(c)@, at as int),
        },
{
    let ghost c0 = c@;
    let ghost p = problems@;
    let mut at: usize = 0;
    while at < problems.len()
        invariant
            ctx.kernels.valid(),
            p == problems@,
            c0 == old(c)@,
            problems_valid(p, c0.len() as int),
            at <= p.len(),
            ran_into(*ctx, par, p, c0, c@, at as int),
        decreases p.len() - at,
    {
        let ghost ce = c@;
        let ghost o = p[at as int].ops;
        assert(p[at as int].ops.valid(c0.len() as int));
        let done = execute(ctx, problems[at].task(), par, c);
        if done.is_err() {
            return Err(at);
        }
        proof {
            assert forall|e: int| 0 <= e < at + 1 implies gemm_runs(*ctx, par, p[e].ops, p[e].alpha)
                && (#[trigger] p[e]).done(*ctx, c0, c@) by {
                let q = p[e];
                assert(q.ops.valid(c0.len() as int));
                assert forall|i: int, j: int| 0 <= i < q.ops.m && 0 <= j < q.ops.n implies c@[
                    #[trigger] q.ops.lc.idx(i, j)
                ] == gemm_element(
                    *ctx,
                    q.ops,
                    q.alpha,
                    q.beta,
                    i,
                    j,
                    c0[q.ops.lc.idx(i, j)],
                ) by {
                    let x = q.ops.lc.idx(i, j);
                    assert(q.covers(x));
                    if e < at {
                        assert(q.done(*ctx, c0, ce));
                        assert(!p[at as int].covers(x));
                        assert(c@[x] == ce[x]);
                    } else {
                        assert forall|f: int| 0 <= f < at implies !(#[trigger] p[f]).covers(x) by {
                            if p[f].covers(x) {
                                assert(p[at as int].covers(x));
                            }
                        }
                        assert(ce[x] == c0[x]);
                    }
                }
            }
            assert forall|x: int|
                0 <= x < c0.len() && (forall|e: int|
                    0 <= e < at + 1 ==> !(#[trigger] p[e]).covers(x)) implies #[trigger] c@[x]
                == c0[x] by {
                assert(!p[at as int].covers(x));
                assert(ce[x] == c0[x]);
            }
        }
        at = at + 1;
    }
    Ok(())
}

/// [`gemm_batched_ptr_unchecked_with`] under the default context.
pub fn gemm_batched_ptr_unchecked<'a, T: GemmScalar>(
    problems: &[GemmProblem<'a, T>],
    par: Parallelism,
    c: &mut [T],
) -> (r: Result<(), usize>)
    requires
        problems_valid(problems@, old(c)@.len() as int),
    ensures
        match r {
            Ok(_) => ran_into(
                default_context(),
                par,
                problems@,
                old(c)@,
                final(c)@,
                problems@.len() as int,
            ),
            Err(at) => at < problems@.len() && !gemm_runs(
                default_context(),
                par,
                problems@[at as int].ops,
                problems@[at as int].alpha,
            ) && ran_into(default_context(), par, problems@, old(c)@, final(c)@, at as int),
        },
{
    gemm_batched_ptr_unchecked_with(&Context::new(), problems, par, c)
}

/// [`gemm_batched_unchecked_with`] under the default context.
pub fn gemm_batched_unchecked<'a, T: GemmScalar>(
    alpha: T,
    b: Batch<'a, T>,
    beta: T,
    c: &mut [T],
    par: Parallelism,
) -> (r: Result<(), GemmError>)
    requires
        b.valid(old(c)@.len() as int),
    ensures
        r == outcome(None, b.batch == 0 || gemm_runs(default_context(), par, b.at(0), alpha)),
        r is Ok ==> b.written(
            old(c)@,
            final(c)@,
            |e: int, i: int, j: int, x: T, y: T|
                y == gemm_element(default_context(), b.at(e), alpha, beta, i, j, x),
        ),
        r is Err ==> final(c)@ == old(c)@,
{
    gemm_batched_unchecked_with(&Context::new(), alpha, b, beta, c, par)
}

/// [`gemm_batched_fused_with`] for operands that are known to fit. The bias is read only with
/// `has_bias`, and the epilogue runs even where it changes nothing.
pub fn gemm_batched_fused_unchecked_with<'a, T: FusedScalar>(
    ctx: &Context,
    alpha: T,
    b: Batch<'a, T>,
    beta: T,
    c: &mut [T],
    bias: &'a [T],
    bias_dim: BiasDim,
    has_bias: bool,
    act: Option<Activation<T>>,
    par: Parallelism,
) -> (r: Result<(), GemmError>)
    requires
        ctx.kernels.valid(),
        b.valid(old(c)@.len() as int),
        fused_epi_spec(
            raw_bias(bias, bias_dim, has_bias),
            act,
        ).bias.covers(b.ops.m as int, b.ops.n as int),
    ensures
        r == outcome(None, b.batch == 0 || epi_runs(*ctx, par, b.at(0), alpha)),
        r is Ok ==> b.written(
            old(c)@,
            final(c)@,
            |e: int, i: int, j: int, x: T, y: T|
                y == fused_epi_spec(raw_bias(bias, bias_dim, has_bias), act).value(
                    pre_epilogue(*ctx, b.at(e), alpha, beta, i, j, x),
                    i,
                    j,
                ),
        ),
        r is Err ==> final(c)@ == old(c)@,
{
    let ghost c0 = c@;
    let epi: FusedEpi<'a, T> = to_fused_epi_raw(bias, bias_dim, has_bias, act);
    let body: FusedBody<'a, T> = FusedBody { alpha, beta, epi };
    let r = run_batch(ctx, b, &body, par, c);
    proof {
        if r is Ok {
            lemma_batch_written_ext(
                b,
                c0,
                c@,
                |e: int, i: int, j: int, x: T, y: T| body.gives(*ctx, b.at(e), i, j, x, y),
                |e: int, i: int, j: int, x: T, y: T|
                    y == fused_epi_spec(raw_bias(bias, bias_dim, has_bias), act).value(
                        pre_epilogue(*ctx, b.at(e), alpha, beta, i, j, x),
                        i,
                        j,
                    ),
            );
        }
    }
    r
}

/// [`gemm_batched_fused_unchecked_with`] under the default context.
pub fn gemm_batched_fused_unchecked<'a, T: FusedScalar>(
    alpha: T,
    b: Batch<'a, T>,
    beta: T,
    c: &mut [T],
    bias: &'a [T],
    bias_dim: BiasDim,
    has_bias: bool,
    act: Option<Activation<T>>,
    par: Parallelism,
) -> (r: Result<(), GemmError>)
    requires
        b.valid(old(c)@.len() as int),
        fused_epi_spec(
            raw_bias(bias, bias_dim, has_bias),
            act,
        ).bias.covers(b.ops.m as int, b.ops.n as int),
    ensures
        r == outcome(None, b.batch == 0 || epi_runs(default_context(), par, b.at(0), alpha)),
        r is Ok ==> b.written(
            old(c)@,
            final(c)@,
            |e: int, i: int, j: int, x: T, y: T|
                y == fused_epi_spec(raw_bias(bias, bias_dim, has_bias), act).value(
                    pre_epilogue(default_context(), b.at(e), alpha, beta, i, j, x),
                    i,
                    j,
                ),
        ),
        r is Err ==> final(c)@ == old(c)@,
{
    gemm_batched_fused_unchecked_with(
        &Context::new(),
        alpha,
        b,
        beta,
        c,
        bias,
        bias_dim,
        has_bias,
        act,
        par,
    )
}

} // verus!
