//! Products with a prepacked operand.

use vstd::prelude::*;

use crate::api::{
    check_view, law_extent_is_tight, law_no_self_alias_is_distinct, self_aliases,
    self_aliases_spec, Geometry, MatMut, MatRef,
};
use crate::arith::{abs_int, lemma_div_up, max_usize, unsigned_abs};
use crate::dispatch::{
    lemma_single_slice, lemma_written_ext, lemma_written_transposed, route_spec, run_direct,
    written, Operands, Route,
};
use crate::driver::{request_spec, run_inner, strided_product, Rhs};
use crate::element::{GemmScalar, Plain};
use crate::error::{first_error, outcome, GemmError, Operand};
use crate::fused::{
    degenerate, fused_epi_spec, fused_error, raw_bias, scaled_base, to_fused_epi, to_fused_epi_raw,
    validate_fused, Act, Activation, Bias, BiasDim, BiasSpec, FusedEpi, FusedScalar,
};
use crate::gemm_i8::{int_element, scale_c_int};
use crate::homog::{
    gemm_element, lemma_done_written, lemma_scratch_layout, plain_contraction, plain_routes,
    route_kc, scale_c, scaled_element, vanishes,
};
use crate::integer::{int_result, int_sum, law_int_product_is_exact, IntGemm};
use crate::kernel::{Epilogue, Identity};
use crate::laws::law_output_depends_on_its_row_and_column;
use crate::layout::{lemma_transposed, lemma_transposed_idx, Layout};
use crate::packed::Packing;
use crate::parallel::{default_context, Context, Parallelism};
use crate::prepack::{
    packed_contraction, packed_request, rhs_geometry, run_packed_rhs_epilogue, PackedLhs,
    PackedRhs,
};
use crate::plan::Request;
use crate::product::{Contraction, Product};
use crate::scalar::{wrap_i32, Scalar};
use crate::tuning::Tuning;

verus! {

/// A product with a prepacked right operand, fully described.
pub struct PackedConsume<'a, T> {
    pub m: usize,
    pub alpha: T,
    pub a: &'a [T],
    pub la: Layout,
    pub packed: &'a PackedRhs<T>,
    pub beta: T,
    pub lc: Layout,
}

impl<'a, T> PackedConsume<'a, T> {
    /// Every view stays inside its slice, and the output does not alias itself.
    pub open spec fn valid(self, c_len: int) -> bool {
        let g = self.packed.geometry();
        &&& self.la.fits(self.m as int, g.k as int, self.a@.len() as int)
        &&& self.lc.fits(self.m as int, g.n as int, c_len)
        &&& self.lc.distinct(self.m as int, g.n as int)
    }
}

/// The shapes for which a product with a prepacked operand reproduces the plain product: neither
/// operand is a vector, and the output is larger than the small-output route takes.
pub open spec fn reproduced(tun: Tuning, m: int, n: int) -> bool {
    &&& m != 1
    &&& n != 1
    &&& m > tun.small_mn_dim || n > tun.small_mn_dim
}

/// The depth of a slice of the plain product of the same shape, where it is one of the
/// [`reproduced`] ones: the whole of a shallow depth, or that of the driver.
pub open spec fn plain_split<T: GemmScalar>(ctx: Context, m: usize, la: Layout, g: Packing) -> int {
    if g.k <= ctx.tuning.small_k_threshold {
        g.k as int
    } else {
        plain_request::<T>(ctx, m, la, g).kc(ctx)
    }
}

/// The decisions about the plain product of the same shape.
pub open spec fn plain_request<T: GemmScalar>(
    ctx: Context,
    m: usize,
    la: Layout,
    g: Packing,
) -> Request {
    request_spec::<Plain<T>>(
        T::rhs_tile_spec(ctx.kernels).0,
        g.nr,
        g.q,
        m,
        g.k,
        g.n,
        la,
        None,
    )
}

/// The depth of a slice of a product with a prepacked operand: that of the plain product for the
/// [`reproduced`] shapes, and that of the panels for the others. Where the depth is not split at
/// all, the two are the same.
pub open spec fn packed_split<T: GemmScalar>(
    ctx: Context,
    m: usize,
    la: Layout,
    g: Packing,
) -> int {
    if T::out_is_acc_spec() && g.q == 1 && reproduced(ctx.tuning, m as int, g.n as int) {
        plain_split::<T>(ctx, m, la, g)
    } else {
        g.kc as int
    }
}

/// Whether a product with a prepacked operand can be run: it is degenerate, or no size overflows.
/// Where the panels are not split as the product is, the operand is taken out of them first.
pub open spec fn packed_runs<T: GemmScalar>(
    ctx: Context,
    par: Parallelism,
    m: usize,
    la: Layout,
    g: Packing,
    alpha: T,
) -> bool {
    m == 0 || g.n == 0 || vanishes(g.k, alpha) || if packed_split::<T>(ctx, m, la, g) == g.kc {
        packed_request::<Plain<T>>(T::rhs_tile_spec(ctx.kernels).0, m, la, g).fits(ctx, par)
    } else {
        &&& g.k * g.n <= isize::MAX
        &&& g.k > ctx.tuning.small_k_threshold ==> plain_request::<T>(ctx, m, la, g).fits(ctx, par)
    }
}

impl<'a, T: GemmScalar> PackedConsume<'a, T> {
    /// The depth of a slice.
    pub open spec fn split(self, ctx: Context) -> int {
        packed_split::<T>(ctx, self.m, self.la, self.packed.geometry())
    }

    /// The arithmetic of the product.
    pub open spec fn con(self, ctx: Context) -> Contraction<Plain<T>> {
        Contraction {
            kc: self.split(ctx),
            ..packed_contraction::<Plain<T>>(
                self.a@,
                self.la,
                *self.packed,
                self.alpha.widen_spec(),
                self.beta.widen_spec(),
            )
        }
    }

    /// The accumulator that the epilogue is given at `(i, j)`.
    pub open spec fn pre_epilogue(self, ctx: Context, i: int, j: int, old: T) -> T::Acc {
        if vanishes(self.packed.geometry().k, self.alpha) {
            scaled_base(self.beta, old)
        } else {
            self.con(ctx).total(i, j, old)
        }
    }

    /// What element `(i, j)` of the output holds after the product, from the value `old` that it
    /// had.
    pub open spec fn element(self, ctx: Context, i: int, j: int, old: T) -> T {
        if vanishes(self.packed.geometry().k, self.alpha) {
            scaled_element(self.beta, old)
        } else {
            T::narrow_spec(self.pre_epilogue(ctx, i, j, old))
        }
    }

    /// Whether the product can be run.
    pub open spec fn runs(self, ctx: Context, par: Parallelism) -> bool {
        packed_runs::<T>(ctx, par, self.m, self.la, self.packed.geometry(), self.alpha)
    }
}

impl<'a, T: FusedScalar> PackedConsume<'a, T> {
    /// What element `(i, j)` of the output holds after a product with an epilogue that counts it
    /// as `(r, s)`. Without a bias and an activation it is the plain product.
    pub open spec fn fused_element<'b>(
        self,
        ctx: Context,
        epi: FusedEpi<'b, T>,
        i: int,
        j: int,
        old: T,
        r: int,
        s: int,
    ) -> T {
        if epi.is_plain() {
            self.element(ctx, i, j, old)
        } else {
            epi.value(self.pre_epilogue(ctx, i, j, old), r, s)
        }
    }
}

/// The split of a product that is not empty has some depth.
pub proof fn lemma_split_positive<T: GemmScalar>(ctx: Context, m: usize, la: Layout, g: Packing)
    requires
        g.k > 0,
        g.kc > 0,
    ensures
        packed_split::<T>(ctx, m, la, g) > 0,
{
}

/// Run a product with a prepacked right operand whose `A*B` term does not vanish. Where the plain
/// product would split the depth otherwise than the panels do, the operand is taken out of them,
/// so that the sums are those of the plain product.
fn consume<'a, T: GemmScalar, E: Epilogue<Plain<T>>>(
    ctx: &Context,
    req: &PackedConsume<'a, T>,
    epi: &E,
    par: Parallelism,
    c: &mut [T],
) -> (r: Result<(), GemmError>)
    requires
        ctx.kernels.valid(),
        req.valid(old(c)@.len() as int),
        0 < req.m,
        0 < req.packed.geometry().n,
        !vanishes(req.packed.geometry().k, req.alpha),
        forall|v: T::Acc, i: int, j: int|
            0 <= i < req.m && 0 <= j < req.packed.geometry().n ==> #[trigger] epi.accepts(v, i, j),
    ensures
        r == outcome(None, req.runs(*ctx, par)),
        r is Ok ==> written(
            old(c)@,
            final(c)@,
            req.lc,
            req.m as int,
            req.packed.geometry().n as int,
            |i: int, j: int, x: T, y: T| epi.stores(req.con(*ctx).total(i, j, x), i, j, y),
        ),
        r is Err ==> final(c)@ == old(c)@,
{
    let ghost c0 = c@;
    let g: Packing = req.packed.packing();
    let (k, n): (usize, usize) = (g.k, g.n);
    let alpha: T::Acc = req.alpha.widen();
    let beta: T::Acc = req.beta.widen();
    let (mr, _nr): (usize, usize) = T::rhs_tile(&ctx.kernels);
    let ghost con = req.con(*ctx);
    let ghost want = |i: int, j: int, x: T, y: T| epi.stores(con.total(i, j, x), i, j, y);
    let tun = &ctx.tuning;
    let shallow: bool = k <= tun.small_k_threshold;
    let split: usize = if T::out_is_acc() && g.q == 1 && req.m != 1 && n != 1 && (req.m
        > tun.small_mn_dim || n > tun.small_mn_dim) {
        if shallow {
            k
        } else {
            match ctx.machine.cache.checked_blocking(
                tun,
                mr,
                g.nr,
                max_usize(core::mem::size_of::<T>(), 1),
                req.m,
                n,
                k,
            ) {
                Some(b) => {
                    proof {
                        lemma_div_up(b.kc as int, 1);
                    }
                    max_usize(b.kc, 1)
                },
                None => return Err(GemmError::TooLarge),
            }
        }
    } else {
        g.kc
    };
    assert(split == req.split(*ctx));
    if split == g.kc {
        let r = run_packed_rhs_epilogue::<Plain<T>, E>(
            ctx,
            par,
            mr,
            req.m,
            alpha,
            req.a,
            req.la,
            req.packed,
            beta,
            c,
            req.lc,
            epi,
        );
        assert(con == packed_contraction::<Plain<T>>(req.a@, req.la, *req.packed, alpha, beta));
        return match r {
            Ok(_) => Ok(()),
            Err(e) => Err(e),
        };
    }
    let fits: bool = match k.checked_mul(n) {
        Some(v) => v <= isize::MAX as usize,
        None => false,
    };
    if !fits {
        return Err(GemmError::TooLarge);
    }
    proof {
        lemma_split_positive::<T>(*ctx, req.m, req.la, g);
        lemma_single_slice(k as int);
        lemma_scratch_layout(k, n);
    }
    let b: Vec<T> = req.packed.unpack();
    let lb: Layout = Layout { off: 0, rs: 1, cs: k as isize };
    if shallow {
        run_direct::<Plain<T>, E>(
            req.m,
            k,
            n,
            alpha,
            req.a,
            req.la,
            b.as_slice(),
            lb,
            beta,
            c,
            req.lc,
            epi,
        );
        proof {
            let prod = strided_product::<Plain<T>, E>(
                req.m as int,
                k as int,
                n as int,
                k as int,
                req.a@,
                req.la,
                b@,
                lb,
                alpha,
                beta,
                c0,
                req.lc,
                *epi,
            );
            lemma_done_written(prod, c@);
            let got = |i: int, j: int, x: T, y: T|
                prod.epi.stores(prod.con().total(i, j, x), i, j, y);
            assert forall|i: int, j: int, x: T, y: T|
                0 <= i < req.m && 0 <= j < n && #[trigger] got(i, j, x, y) implies want(
                i,
                j,
                x,
                y,
            ) by {
                law_output_depends_on_its_row_and_column(prod.con(), con, i, j, i, j, x);
            }
            lemma_written_ext(c0, c@, req.lc, req.m as int, n as int, got, want);
        }
        return Ok(());
    }
    let ghost prod = Product::<Plain<T>, E> {
        m: req.m as int,
        n: n as int,
        k: k as int,
        kc: con.kc,
        a: con.a,
        b: con.b,
        alpha,
        beta,
        lc: req.lc,
        c0,
        epi: *epi,
    };
    let r = run_inner::<Plain<T>, E>(
        ctx,
        par,
        mr,
        g.nr,
        g.q,
        req.m,
        k,
        n,
        alpha,
        req.a,
        req.la,
        Rhs::Plain { b: b.as_slice(), lb },
        beta,
        c,
        req.lc,
        epi,
        Ghost(prod),
    );
    proof {
        assert(prod.con() == con);
        if r is Ok {
            lemma_done_written(prod, c@);
        }
    }
    match r {
        Ok(_) => Ok(()),
        Err(e) => Err(e),
    }
}

/// Run a product with a prepacked right operand: the degenerate cases here, everything else with
/// the driver.
pub fn execute_packed<'a, T: GemmScalar>(
    ctx: &Context,
    req: PackedConsume<'a, T>,
    par: Parallelism,
    c: &mut [T],
) -> (r: Result<(), GemmError>)
    requires
        ctx.kernels.valid(),
        req.valid(old(c)@.len() as int),
    ensures
        r == outcome(None, req.runs(*ctx, par)),
        r is Ok ==> written(
            old(c)@,
            final(c)@,
            req.lc,
            req.m as int,
            req.packed.geometry().n as int,
            |i: int, j: int, x: T, y: T| y == req.element(*ctx, i, j, x),
        ),
        r is Err ==> final(c)@ == old(c)@,
{
    let ghost c0 = c@;
    let ghost want = |i: int, j: int, x: T, y: T| y == req.element(*ctx, i, j, x);
    let k: usize = req.packed.rows();
    let n: usize = req.packed.cols();
    if req.m == 0 || n == 0 {
        return Ok(());
    }
    if k == 0 || req.alpha.is_zero() {
        scale_c(req.beta, c, req.lc, req.m, n);
        proof {
            let got = |i: int, j: int, x: T, y: T| y == scaled_element(req.beta, x);
            lemma_written_ext(c0, c@, req.lc, req.m as int, n as int, got, want);
        }
        return Ok(());
    }
    let r = consume::<T, Identity>(ctx, &req, &Identity, par, c);
    proof {
        if r is Ok {
            let con = req.con(*ctx);
            let got = |i: int, j: int, x: T, y: T|
                <Identity as Epilogue<Plain<T>>>::stores(&Identity, con.total(i, j, x), i, j, y);
            lemma_written_ext(c0, c@, req.lc, req.m as int, n as int, got, want);
        }
    }
    r
}

/// Run a product with a prepacked right operand and an epilogue.
pub fn execute_packed_fused<'a, T: GemmScalar, E: Epilogue<Plain<T>>>(
    ctx: &Context,
    req: PackedConsume<'a, T>,
    epi: &E,
    par: Parallelism,
    c: &mut [T],
) -> (r: Result<(), GemmError>)
    requires
        ctx.kernels.valid(),
        req.valid(old(c)@.len() as int),
        forall|v: T::Acc, i: int, j: int|
            0 <= i < req.m && 0 <= j < req.packed.geometry().n ==> #[trigger] epi.accepts(v, i, j),
    ensures
        r == outcome(None, req.runs(*ctx, par)),
        r is Ok ==> written(
            old(c)@,
            final(c)@,
            req.lc,
            req.m as int,
            req.packed.geometry().n as int,
            |i: int, j: int, x: T, y: T| epi.stores(req.pre_epilogue(*ctx, i, j, x), i, j, y),
        ),
        r is Err ==> final(c)@ == old(c)@,
{
    let ghost c0 = c@;
    let ghost want = |i: int, j: int, x: T, y: T|
        epi.stores(req.pre_epilogue(*ctx, i, j, x), i, j, y);
    let k: usize = req.packed.rows();
    let n: usize = req.packed.cols();
    if req.m == 0 || n == 0 {
        return Ok(());
    }
    if k == 0 || req.alpha.is_zero() {
        degenerate(req.beta, c, req.lc, req.m, n, epi);
        proof {
            let got = |i: int, j: int, x: T, y: T|
                epi.stores(scaled_base(req.beta, x), i, j, y);
            lemma_written_ext(c0, c@, req.lc, req.m as int, n as int, got, want);
        }
        return Ok(());
    }
    let r = consume::<T, E>(ctx, &req, epi, par, c);
    proof {
        if r is Ok {
            let con = req.con(*ctx);
            let got = |i: int, j: int, x: T, y: T| epi.stores(con.total(i, j, x), i, j, y);
            lemma_written_ext(c0, c@, req.lc, req.m as int, n as int, got, want);
        }
    }
    r
}

/// Run a product with a prepacked right operand and a bias and an activation. Without either it is
/// the plain product.
fn execute_packed_epi<'a, 'b, T: FusedScalar>(
    ctx: &Context,
    req: PackedConsume<'a, T>,
    epi: &FusedEpi<'b, T>,
    par: Parallelism,
    c: &mut [T],
) -> (r: Result<(), GemmError>)
    requires
        ctx.kernels.valid(),
        req.valid(old(c)@.len() as int),
        epi.bias.covers(req.m as int, req.packed.geometry().n as int),
    ensures
        r == outcome(None, req.runs(*ctx, par)),
        r is Ok ==> written(
            old(c)@,
            final(c)@,
            req.lc,
            req.m as int,
            req.packed.geometry().n as int,
            |i: int, j: int, x: T, y: T| y == req.fused_element(*ctx, *epi, i, j, x, i, j),
        ),
        r is Err ==> final(c)@ == old(c)@,
{
    let ghost c0 = c@;
    let ghost (lc, m, n) = (req.lc, req.m as int, req.packed.geometry().n as int);
    let ghost want = |i: int, j: int, x: T, y: T|
        y == req.fused_element(*ctx, *epi, i, j, x, i, j);
    let plain: bool = match (&epi.bias, &epi.act) {
        (BiasSpec::Absent, Act::Absent) => true,
        _ => false,
    };
    if plain {
        let r = execute_packed(ctx, req, par, c);
        proof {
            if r is Ok {
                let got = |i: int, j: int, x: T, y: T| y == req.element(*ctx, i, j, x);
                lemma_written_ext(c0, c@, lc, m, n, got, want);
            }
        }
        r
    } else {
        let r = execute_packed_fused(ctx, req, epi, par, c);
        proof {
            if r is Ok {
                let got = |i: int, j: int, x: T, y: T|
                    epi.stores(req.pre_epilogue(*ctx, i, j, x), i, j, y);
                lemma_written_ext(c0, c@, lc, m, n, got, want);
            }
        }
        r
    }
}

/// The first reason why `A`, a prepacked `B` and `C` do not make a product.
pub open spec fn packed_b_error(a: Geometry, g: Packing, c: Geometry) -> Option<GemmError> {
    if a.cols != g.k {
        Some(GemmError::InnerMismatch { a_cols: a.cols, b_rows: g.k })
    } else if g.n != c.cols {
        Some(GemmError::ColsMismatch { b_cols: g.n, c_cols: c.cols })
    } else if a.rows != c.rows {
        Some(GemmError::RowsMismatch { a_rows: a.rows, c_rows: c.rows })
    } else if !a.in_bounds() {
        Some(a.error(Operand::A))
    } else if !c.in_bounds() {
        Some(c.error(Operand::C))
    } else if self_aliases_spec(c.rows, c.cols, c.rs, c.cs) {
        Some(GemmError::SelfAliasing)
    } else {
        None
    }
}

/// The first reason why a prepacked `A`, `B` and `C` do not make a product. The geometry is that
/// of the transposed operand.
pub open spec fn packed_a_error(g: Packing, b: Geometry, c: Geometry) -> Option<GemmError> {
    if g.k != b.rows {
        Some(GemmError::InnerMismatch { a_cols: g.k, b_rows: b.rows })
    } else if g.n != c.rows {
        Some(GemmError::RowsMismatch { a_rows: g.n, c_rows: c.rows })
    } else if b.cols != c.cols {
        Some(GemmError::ColsMismatch { b_cols: b.cols, c_cols: c.cols })
    } else if !b.in_bounds() {
        Some(b.error(Operand::B))
    } else if !c.in_bounds() {
        Some(c.error(Operand::C))
    } else if self_aliases_spec(c.rows, c.cols, c.rs, c.cs) {
        Some(GemmError::SelfAliasing)
    } else {
        None
    }
}

/// A prepacked `B` needs a C that is not laid out by rows: such a product would run transposed.
pub open spec fn packed_b_orientation(rs: isize, cs: isize) -> Option<GemmError> {
    if abs_int(cs as int) >= abs_int(rs as int) {
        None
    } else {
        Some(GemmError::Orientation)
    }
}

/// A prepacked `A` needs a C that is not laid out by columns.
pub open spec fn packed_a_orientation(rs: isize, cs: isize) -> Option<GemmError> {
    if abs_int(cs as int) <= abs_int(rs as int) {
        None
    } else {
        Some(GemmError::Orientation)
    }
}

/// The checks of a product with a prepacked `B`.
fn validate_packed_b<TI, TO>(a: &MatRef<'_, TI>, packed: &PackedRhs<TI>, c: &MatMut<'_, TO>) -> (r:
    Result<(), GemmError>)
    ensures
        r == (match packed_b_error(a.geometry(), packed.geometry(), c.geometry()) {
            Some(e) => Err::<(), GemmError>(e),
            None => Ok(()),
        }),
{
    if a.cols != packed.rows() {
        return Err(GemmError::InnerMismatch { a_cols: a.cols, b_rows: packed.rows() });
    }
    if packed.cols() != c.cols {
        return Err(GemmError::ColsMismatch { b_cols: packed.cols(), c_cols: c.cols });
    }
    if a.rows != c.rows {
        return Err(GemmError::RowsMismatch { a_rows: a.rows, c_rows: c.rows });
    }
    if let Err(e) = check_view(a.data.len(), a.rows, a.cols, a.rs, a.cs, Operand::A) {
        return Err(e);
    }
    if let Err(e) = check_view(c.data.len(), c.rows, c.cols, c.rs, c.cs, Operand::C) {
        return Err(e);
    }
    if self_aliases(c.rows, c.cols, c.rs, c.cs) {
        return Err(GemmError::SelfAliasing);
    }
    Ok(())
}

/// The checks of a product with a prepacked `A`.
fn validate_packed_a<T>(packed: &PackedLhs<T>, b: &MatRef<'_, T>, c: &MatMut<'_, T>) -> (r: Result<
    (),
    GemmError,
>)
    ensures
        r == (match packed_a_error(packed.as_rhs().geometry(), b.geometry(), c.geometry()) {
            Some(e) => Err::<(), GemmError>(e),
            None => Ok(()),
        }),
{
    if packed.cols() != b.rows {
        return Err(GemmError::InnerMismatch { a_cols: packed.cols(), b_rows: b.rows });
    }
    if packed.rows() != c.rows {
        return Err(GemmError::RowsMismatch { a_rows: packed.rows(), c_rows: c.rows });
    }
    if b.cols != c.cols {
        return Err(GemmError::ColsMismatch { b_cols: b.cols, c_cols: c.cols });
    }
    if let Err(e) = check_view(b.data.len(), b.rows, b.cols, b.rs, b.cs, Operand::B) {
        return Err(e);
    }
    if let Err(e) = check_view(c.data.len(), c.rows, c.cols, c.rs, c.cs, Operand::C) {
        return Err(e);
    }
    if self_aliases(c.rows, c.cols, c.rs, c.cs) {
        return Err(GemmError::SelfAliasing);
    }
    Ok(())
}

/// The product of a view and a prepacked `B`.
pub open spec fn packed_b_request<'a, T>(
    alpha: T,
    a: MatRef<'a, T>,
    packed: &'a PackedRhs<T>,
    beta: T,
    lc: Layout,
) -> PackedConsume<'a, T> {
    PackedConsume { m: a.rows, alpha, a: a.data, la: a.layout_spec(), packed, beta, lc }
}

/// The product of a prepacked `A` and a view, as the transposed product that is run.
pub open spec fn packed_a_request<'a, T>(
    alpha: T,
    packed: &'a PackedRhs<T>,
    b: MatRef<'a, T>,
    beta: T,
    lc: Layout,
) -> PackedConsume<'a, T> {
    PackedConsume {
        m: b.cols,
        alpha,
        a: b.data,
        la: b.layout_spec().transposed(),
        packed,
        beta,
        lc: lc.transposed(),
    }
}

/// Views that pass the checks of a prepacked `B` make a valid request.
proof fn lemma_packed_b_valid<'a, T>(
    alpha: T,
    a: MatRef<'a, T>,
    packed: &'a PackedRhs<T>,
    beta: T,
    c: Geometry,
)
    requires
        packed_b_error(a.geometry(), packed.geometry(), c) is None,
    ensures
        packed_b_request(alpha, a, packed, beta, (Layout { off: 0, rs: c.rs, cs: c.cs })).valid(
            c.len,
        ),
{
    law_extent_is_tight(a.rows, a.cols, a.rs, a.cs);
    law_extent_is_tight(c.rows, c.cols, c.rs, c.cs);
    law_no_self_alias_is_distinct(c.rows, c.cols, c.rs, c.cs, 0);
}

/// Views that pass the checks of a prepacked `A` make a valid request.
proof fn lemma_packed_a_valid<'a, T>(
    alpha: T,
    packed: &'a PackedRhs<T>,
    b: MatRef<'a, T>,
    beta: T,
    c: Geometry,
)
    requires
        packed_a_error(packed.geometry(), b.geometry(), c) is None,
    ensures
        packed_a_request(alpha, packed, b, beta, (Layout { off: 0, rs: c.rs, cs: c.cs })).valid(
            c.len,
        ),
{
    law_extent_is_tight(b.rows, b.cols, b.rs, b.cs);
    law_extent_is_tight(c.rows, c.cols, c.rs, c.cs);
    law_no_self_alias_is_distinct(c.rows, c.cols, c.rs, c.cs, 0);
    lemma_transposed(b.layout_spec(), b.rows as int, b.cols as int, b.data@.len() as int);
    lemma_transposed(
        (Layout { off: 0, rs: c.rs, cs: c.cs }),
        c.rows as int,
        c.cols as int,
        c.len,
    );
}

/// `C <- alpha*A*B + beta*C` with a prepacked `B`, under the given context. C must not be laid
/// out by rows.
///
/// Unless an operand is a vector or both dimensions of C are within the small-output route, the
/// result is that of the plain product under the same context, bit for bit.
pub fn gemm_packed_b_with<'a, T: GemmScalar>(
    ctx: &Context,
    alpha: T,
    a: MatRef<'a, T>,
    packed: &'a PackedRhs<T>,
    beta: T,
    c: MatMut<'_, T>,
    par: Parallelism,
) -> (r: Result<(), GemmError>)
    requires
        ctx.kernels.valid(),
    ensures
        r == outcome(
            first_error(
                packed_b_error(a.geometry(), packed.geometry(), c.geometry()),
                packed_b_orientation(c.rs, c.cs),
            ),
            packed_b_request(alpha, a, packed, beta, c.layout_spec()).runs(*ctx, par),
        ),
        r is Ok ==> written(
            old(c.data)@,
            final(c.data)@,
            c.layout_spec(),
            c.rows as int,
            c.cols as int,
            |i: int, j: int, x: T, y: T|
                y == packed_b_request(alpha, a, packed, beta, c.layout_spec()).element(
                    *ctx,
                    i,
                    j,
                    x,
                ),
        ),
        r is Err ==> final(c.data)@ == old(c.data)@,
{
    if let Err(e) = validate_packed_b(&a, packed, &c) {
        return Err(e);
    }
    if unsigned_abs(c.cs) < unsigned_abs(c.rs) {
        return Err(GemmError::Orientation);
    }
    proof {
        lemma_packed_b_valid(alpha, a, packed, beta, c.geometry());
    }
    let req: PackedConsume<'a, T> = PackedConsume {
        m: a.rows,
        alpha,
        a: a.data,
        la: a.layout(),
        packed,
        beta,
        lc: c.layout(),
    };
    assert(req == packed_b_request(alpha, a, packed, beta, c.layout_spec()));
    execute_packed(ctx, req, par, c.data)
}

/// [`gemm_packed_b_with`] under the default context.
pub fn gemm_packed_b<'a, T: GemmScalar>(
    alpha: T,
    a: MatRef<'a, T>,
    packed: &'a PackedRhs<T>,
    beta: T,
    c: MatMut<'_, T>,
    par: Parallelism,
) -> (r: Result<(), GemmError>)
    ensures
        r == outcome(
            first_error(
                packed_b_error(a.geometry(), packed.geometry(), c.geometry()),
                packed_b_orientation(c.rs, c.cs),
            ),
            packed_b_request(alpha, a, packed, beta, c.layout_spec()).runs(default_context(), par),
        ),
        r is Ok ==> written(
            old(c.data)@,
            final(c.data)@,
            c.layout_spec(),
            c.rows as int,
            c.cols as int,
            |i: int, j: int, x: T, y: T|
                y == packed_b_request(alpha, a, packed, beta, c.layout_spec()).element(
                    default_context(),
                    i,
                    j,
                    x,
                ),
        ),
        r is Err ==> final(c.data)@ == old(c.data)@,
{
    gemm_packed_b_with(&Context::new(), alpha, a, packed, beta, c, par)
}

/// `C <- alpha*A*B + beta*C` with a prepacked `A`, under the given context: the transposed
/// product, with the transposed `A` as its prepacked right operand. C must not be laid out by
/// columns.
///
/// It reproduces the plain product as [`gemm_packed_b_with`] does.
pub fn gemm_packed_a_with<'a, T: GemmScalar>(
    ctx: &Context,
    alpha: T,
    packed: &'a PackedLhs<T>,
    b: MatRef<'a, T>,
    beta: T,
    c: MatMut<'_, T>,
    par: Parallelism,
) -> (r: Result<(), GemmError>)
    requires
        ctx.kernels.valid(),
    ensures
        r == outcome(
            first_error(
                packed_a_error(packed.as_rhs().geometry(), b.geometry(), c.geometry()),
                packed_a_orientation(c.rs, c.cs),
            ),
            packed_a_request(alpha, &packed.as_rhs(), b, beta, c.layout_spec()).runs(*ctx, par),
        ),
        r is Ok ==> written(
            old(c.data)@,
            final(c.data)@,
            c.layout_spec(),
            c.rows as int,
            c.cols as int,
            |i: int, j: int, x: T, y: T|
                y == packed_a_request(
                    alpha,
                    &packed.as_rhs(),
                    b,
                    beta,
                    c.layout_spec(),
                ).element(*ctx, j, i, x),
        ),
        r is Err ==> final(c.data)@ == old(c.data)@,
{
    if let Err(e) = validate_packed_a(packed, &b, &c) {
        return Err(e);
    }
    if unsigned_abs(c.cs) > unsigned_abs(c.rs) {
        return Err(GemmError::Orientation);
    }
    let ghost c0 = c.data@;
    let ghost (lc, m, n) = (c.layout_spec(), c.rows as int, c.cols as int);
    proof {
        lemma_packed_a_valid(alpha, &packed.as_rhs(), b, beta, c.geometry());
    }
    let req: PackedConsume<'a, T> = PackedConsume {
        m: b.cols,
        alpha,
        a: b.data,
        la: b.layout().transposed(),
        packed: packed.rhs(),
        beta,
        lc: c.layout().transposed(),
    };
    assert(req == packed_a_request(alpha, &packed.as_rhs(), b, beta, c.layout_spec()));
    let r = execute_packed(ctx, req, par, c.data);
    proof {
        if r is Ok {
            let want = |i: int, j: int, x: T, y: T| y == req.element(*ctx, j, i, x);
            lemma_written_ext(
                c0,
                c.data@,
                req.lc,
                n,
                m,
                |i: int, j: int, x: T, y: T| y == req.element(*ctx, i, j, x),
                |i: int, j: int, x: T, y: T| want(j, i, x, y),
            );
            lemma_written_transposed(c0, c.data@, lc, m, n, want);
        }
    }
    r
}

/// [`gemm_packed_a_with`] under the default context.
pub fn gemm_packed_a<'a, T: GemmScalar>(
    alpha: T,
    packed: &'a PackedLhs<T>,
    b: MatRef<'a, T>,
    beta: T,
    c: MatMut<'_, T>,
    par: Parallelism,
) -> (r: Result<(), GemmError>)
    ensures
        r == outcome(
            first_error(
                packed_a_error(packed.as_rhs().geometry(), b.geometry(), c.geometry()),
                packed_a_orientation(c.rs, c.cs),
            ),
            packed_a_request(
                alpha,
                &packed.as_rhs(),
                b,
                beta,
                c.layout_spec(),
            ).runs(default_context(), par),
        ),
        r is Ok ==> written(
            old(c.data)@,
            final(c.data)@,
            c.layout_spec(),
            c.rows as int,
            c.cols as int,
            |i: int, j: int, x: T, y: T|
                y == packed_a_request(
                    alpha,
                    &packed.as_rhs(),
                    b,
                    beta,
                    c.layout_spec(),
                ).element(default_context(), j, i, x),
        ),
        r is Err ==> final(c.data)@ == old(c.data)@,
{
    gemm_packed_a_with(&Context::new(), alpha, packed, b, beta, c, par)
}

/// `C <- act(alpha*A*B + beta*C + bias)` with a prepacked `B`, under the given context. C must
/// not be laid out by rows.
pub fn gemm_packed_b_fused_with<'a, T: FusedScalar>(
    ctx: &Context,
    alpha: T,
    a: MatRef<'a, T>,
    packed: &'a PackedRhs<T>,
    beta: T,
    c: MatMut<'_, T>,
    bias: Option<Bias<'a, T>>,
    act: Option<Activation<T>>,
    par: Parallelism,
) -> (r: Result<(), GemmError>)
    requires
        ctx.kernels.valid(),
    ensures
        r == outcome(
            first_error(
                packed_b_error(a.geometry(), packed.geometry(), c.geometry()),
                first_error(
                    fused_error(bias, act, a.rows, packed.geometry().n),
                    packed_b_orientation(c.rs, c.cs),
                ),
            ),
            packed_b_request(alpha, a, packed, beta, c.layout_spec()).runs(*ctx, par),
        ),
        r is Ok ==> written(
            old(c.data)@,
            final(c.data)@,
            c.layout_spec(),
            c.rows as int,
            c.cols as int,
            |i: int, j: int, x: T, y: T|
                y == packed_b_request(alpha, a, packed, beta, c.layout_spec()).fused_element(
                    *ctx,
                    fused_epi_spec(bias, act),
                    i,
                    j,
                    x,
                    i,
                    j,
                ),
        ),
        r is Err ==> final(c.data)@ == old(c.data)@,
{
    if let Err(e) = validate_packed_b(&a, packed, &c) {
        return Err(e);
    }
    if let Err(e) = validate_fused(&bias, &act, a.rows, packed.cols()) {
        return Err(e);
    }
    if unsigned_abs(c.cs) < unsigned_abs(c.rs) {
        return Err(GemmError::Orientation);
    }
    proof {
        lemma_packed_b_valid(alpha, a, packed, beta, c.geometry());
    }
    let ghost c0 = c.data@;
    let ghost (lc, m, n) = (c.layout_spec(), c.rows as int, c.cols as int);
    let epi: FusedEpi<'a, T> = to_fused_epi(bias, act);
    let req: PackedConsume<'a, T> = PackedConsume {
        m: a.rows,
        alpha,
        a: a.data,
        la: a.layout(),
        packed,
        beta,
        lc: c.layout(),
    };
    assert(req == packed_b_request(alpha, a, packed, beta, c.layout_spec()));
    let r = execute_packed_epi(ctx, req, &epi, par, c.data);
    proof {
        if r is Ok {
            lemma_written_ext(
                c0,
                c.data@,
                lc,
                m,
                n,
                |i: int, j: int, x: T, y: T| y == req.fused_element(*ctx, epi, i, j, x, i, j),
                |i: int, j: int, x: T, y: T|
                    y == req.fused_element(*ctx, fused_epi_spec(bias, act), i, j, x, i, j),
            );
        }
    }
    r
}

/// [`gemm_packed_b_fused_with`] under the default context.
pub fn gemm_packed_b_fused<'a, T: FusedScalar>(
    alpha: T,
    a: MatRef<'a, T>,
    packed: &'a PackedRhs<T>,
    beta: T,
    c: MatMut<'_, T>,
    bias: Option<Bias<'a, T>>,
    act: Option<Activation<T>>,
    par: Parallelism,
) -> (r: Result<(), GemmError>)
    ensures
        r == outcome(
            first_error(
                packed_b_error(a.geometry(), packed.geometry(), c.geometry()),
                first_error(
                    fused_error(bias, act, a.rows, packed.geometry().n),
                    packed_b_orientation(c.rs, c.cs),
                ),
            ),
            packed_b_request(alpha, a, packed, beta, c.layout_spec()).runs(default_context(), par),
        ),
        r is Ok ==> written(
            old(c.data)@,
            final(c.data)@,
            c.layout_spec(),
            c.rows as int,
            c.cols as int,
            |i: int, j: int, x: T, y: T|
                y == packed_b_request(alpha, a, packed, beta, c.layout_spec()).fused_element(
                    default_context(),
                    fused_epi_spec(bias, act),
                    i,
                    j,
                    x,
                    i,
                    j,
                ),
        ),
        r is Err ==> final(c.data)@ == old(c.data)@,
{
    gemm_packed_b_fused_with(&Context::new(), alpha, a, packed, beta, c, bias, act, par)
}

/// `C <- act(alpha*A*B + beta*C + bias)` with a prepacked `A`, under the given context. C must
/// not be laid out by columns.
pub fn gemm_packed_a_fused_with<'a, T: FusedScalar>(
    ctx: &Context,
    alpha: T,
    packed: &'a PackedLhs<T>,
    b: MatRef<'a, T>,
    beta: T,
    c: MatMut<'_, T>,
    bias: Option<Bias<'a, T>>,
    act: Option<Activation<T>>,
    par: Parallelism,
) -> (r: Result<(), GemmError>)
    requires
        ctx.kernels.valid(),
    ensures
        r == outcome(
            first_error(
                packed_a_error(packed.as_rhs().geometry(), b.geometry(), c.geometry()),
                first_error(
                    fused_error(bias, act, packed.as_rhs().geometry().n, b.cols),
                    packed_a_orientation(c.rs, c.cs),
                ),
            ),
            packed_a_request(alpha, &packed.as_rhs(), b, beta, c.layout_spec()).runs(*ctx, par),
        ),
        r is Ok ==> written(
            old(c.data)@,
            final(c.data)@,
            c.layout_spec(),
            c.rows as int,
            c.cols as int,
            |i: int, j: int, x: T, y: T|
                y == packed_a_request(
                        alpha,
                        &packed.as_rhs(),
                        b,
                        beta,
                        c.layout_spec(),
                    ).fused_element(*ctx, fused_epi_spec(bias, act), j, i, x, i, j),
        ),
        r is Err ==> final(c.data)@ == old(c.data)@,
{
    if let Err(e) = validate_packed_a(packed, &b, &c) {
        return Err(e);
    }
    if let Err(e) = validate_fused(&bias, &act, packed.rows(), b.cols) {
        return Err(e);
    }
    if unsigned_abs(c.cs) > unsigned_abs(c.rs) {
        return Err(GemmError::Orientation);
    }
    let ghost c0 = c.data@;
    let ghost (lc, m, n) = (c.layout_spec(), c.rows as int, c.cols as int);
    proof {
        lemma_packed_a_valid(alpha, &packed.as_rhs(), b, beta, c.geometry());
    }
    let epi: FusedEpi<'a, T> = to_fused_epi(bias, act);
    let flipped: FusedEpi<'a, T> = <FusedEpi<'a, T> as Epilogue<Plain<T>>>::flip(&epi);
    let req: PackedConsume<'a, T> = PackedConsume {
        m: b.cols,
        alpha,
        a: b.data,
        la: b.layout().transposed(),
        packed: packed.rhs(),
        beta,
        lc: c.layout().transposed(),
    };
    assert(req == packed_a_request(alpha, &packed.as_rhs(), b, beta, c.layout_spec()));
    let r = execute_packed_epi(ctx, req, &flipped, par, c.data);
    proof {
        if r is Ok {
            let want = |i: int, j: int, x: T, y: T|
                y == req.fused_element(*ctx, fused_epi_spec(bias, act), j, i, x, i, j);
            lemma_written_ext(
                c0,
                c.data@,
                req.lc,
                n,
                m,
                |i: int, j: int, x: T, y: T| y == req.fused_element(*ctx, flipped, i, j, x, i, j),
                |i: int, j: int, x: T, y: T| want(j, i, x, y),
            );
            lemma_written_transposed(c0, c.data@, lc, m, n, want);
        }
    }
    r
}

/// [`gemm_packed_a_fused_with`] under the default context.
pub fn gemm_packed_a_fused<'a, T: FusedScalar>(
    alpha: T,
    packed: &'a PackedLhs<T>,
    b: MatRef<'a, T>,
    beta: T,
    c: MatMut<'_, T>,
    bias: Option<Bias<'a, T>>,
    act: Option<Activation<T>>,
    par: Parallelism,
) -> (r: Result<(), GemmError>)
    ensures
        r == outcome(
            first_error(
                packed_a_error(packed.as_rhs().geometry(), b.geometry(), c.geometry()),
                first_error(
                    fused_error(bias, act, packed.as_rhs().geometry().n, b.cols),
                    packed_a_orientation(c.rs, c.cs),
                ),
            ),
            packed_a_request(
                alpha,
                &packed.as_rhs(),
                b,
                beta,
                c.layout_spec(),
            ).runs(default_context(), par),
        ),
        r is Ok ==> written(
            old(c.data)@,
            final(c.data)@,
            c.layout_spec(),
            c.rows as int,
            c.cols as int,
            |i: int, j: int, x: T, y: T|
                y == packed_a_request(
                        alpha,
                        &packed.as_rhs(),
                        b,
                        beta,
                        c.layout_spec(),
                    ).fused_element(default_context(), fused_epi_spec(bias, act), j, i, x, i, j),
        ),
        r is Err ==> final(c.data)@ == old(c.data)@,
{
    gemm_packed_a_fused_with(&Context::new(), alpha, packed, b, beta, c, bias, act, par)
}

/// With neither a bias nor an activation, a fused product with a prepacked operand stores what
/// the plain one does, bit for bit.
pub proof fn law_packed_fused_without_epilogue<'a, T: FusedScalar>(
    ctx: Context,
    req: PackedConsume<'a, T>,
    i: int,
    j: int,
    old: T,
    r: int,
    s: int,
)
    ensures
        req.fused_element(ctx, fused_epi_spec::<T>(None, None), i, j, old, r, s) == req.element(
            ctx,
            i,
            j,
            old,
        ),
{
}

/// For an element type that holds its accumulator exactly, a fused product with a prepacked
/// operand is the plain one followed by the same map of every element.
pub proof fn law_packed_fused_is_packed_then_map<'a, T: FusedScalar>(
    ctx: Context,
    req: PackedConsume<'a, T>,
    bias: Option<Bias<'a, T>>,
    act: Option<Activation<T>>,
    i: int,
    j: int,
    old: T,
    r: int,
    s: int,
)
    requires
        T::out_is_acc_spec(),
    ensures
        req.fused_element(ctx, fused_epi_spec(bias, act), i, j, old, r, s) == fused_epi_spec(
            bias,
            act,
        ).value(req.element(ctx, i, j, old).widen_spec(), r, s),
{
    T::exact_is_lossless(req.pre_epilogue(ctx, i, j, old), old);
    T::exact_is_lossless(
        req.beta.widen_spec().times_spec(old.widen_spec()),
        old,
    );
    T::exact_is_lossless(T::Acc::zero_spec(), req.element(ctx, i, j, old));
}

/// The products that a prepacked operand reproduces: those of a type that never splits the depth,
/// those with an output larger than the small-output route takes and without a vector among the
/// operands, and those of the rest for which the panels are split as the plain product is.
pub open spec fn same_sums<'a, T: GemmScalar>(ctx: Context, o: Operands<'a, T>) -> bool {
    let route = route_spec(ctx, plain_routes::<T>(ctx), o);
    let t = o.oriented();
    ||| !T::out_is_acc_spec()
    ||| reproduced(ctx.tuning, o.m as int, o.n as int)
    ||| rhs_geometry::<T>(ctx, t.k, t.n).kc == route_kc(ctx, route, t)
}

/// The depth split of a product with a prepacked operand is that of the plain product.
proof fn lemma_same_split<'a, T: GemmScalar>(ctx: Context, o: Operands<'a, T>)
    requires
        o.m > 0,
        o.k > 0,
        o.n > 0,
        ctx.kernels.valid(),
        same_sums(ctx, o),
    ensures
        ({
            let t = o.oriented();
            let route = route_spec(ctx, plain_routes::<T>(ctx), o);
            packed_split::<T>(ctx, t.m, t.la, rhs_geometry::<T>(ctx, t.k, t.n)) == route_kc(
                ctx,
                route,
                t,
            )
        }),
{
    T::depth_multiple_is_sound(ctx.kernels);
}

/// A prepacked `B` reproduces the plain product bit for bit, for an output that is not laid out
/// by rows: whenever neither operand is a vector and the output is larger than the small-output
/// route takes, and in the other cases of [`same_sums`].
pub proof fn law_prepacked_b_reproduces_gemm<'a, T: GemmScalar>(
    ctx: Context,
    o: Operands<'a, T>,
    req: PackedConsume<'a, T>,
    i: int,
    j: int,
    old: T,
)
    requires
        o.m > 0,
        o.n > 0,
        ctx.kernels.valid(),
        !o.row_major(),
        same_sums(ctx, o),
        req.m == o.m,
        req.a == o.a,
        req.la == o.la,
        req.packed.geometry() == rhs_geometry::<T>(ctx, o.k, o.n),
        req.packed.element() == (|j: int, p: int| o.b@[o.lb.idx(p, j)]),
    ensures
        req.element(ctx, i, j, old) == gemm_element(ctx, o, req.alpha, req.beta, i, j, old),
{
    if o.k > 0 {
        let route = route_spec(ctx, plain_routes::<T>(ctx), o);
        lemma_same_split(ctx, o);
        let (alpha, beta) = (req.alpha.widen_spec(), req.beta.widen_spec());
        let con = req.con(ctx);
        let plain = plain_contraction(o, route_kc(ctx, route, o), alpha, beta);
        assert(con.a =~= plain.a);
        assert(con.b =~= plain.b);
        assert(con == plain);
    }
}

/// A prepacked `A` reproduces the plain product bit for bit, for an output that is laid out by
/// rows and outside the matrix-vector route: whenever neither operand is a vector and the output
/// is larger than the small-output route takes, and in the other cases of [`same_sums`].
pub proof fn law_prepacked_a_reproduces_gemm<'a, T: GemmScalar>(
    ctx: Context,
    o: Operands<'a, T>,
    req: PackedConsume<'a, T>,
    i: int,
    j: int,
    old: T,
)
    requires
        o.m > 0,
        o.n > 0,
        ctx.kernels.valid(),
        o.row_major(),
        route_spec(ctx, plain_routes::<T>(ctx), o) != Route::Gemv,
        same_sums(ctx, o),
        req.m == o.n,
        req.a == o.b,
        req.la == o.lb.transposed(),
        req.packed.geometry() == rhs_geometry::<T>(ctx, o.k, o.m),
        req.packed.element() == (|i: int, p: int| o.a@[o.la.idx(i, p)]),
    ensures
        req.element(ctx, j, i, old) == gemm_element(ctx, o, req.alpha, req.beta, i, j, old),
{
    if o.k > 0 {
        let t = o.transposed();
        let route = route_spec(ctx, plain_routes::<T>(ctx), o);
        lemma_same_split(ctx, o);
        let (alpha, beta) = (req.alpha.widen_spec(), req.beta.widen_spec());
        let con = req.con(ctx);
        let plain = plain_contraction(t, route_kc(ctx, route, t), alpha, beta);
        assert(con.a =~= plain.a);
        assert forall|x: int, p: int| #[trigger] (con.b)(x, p) == (plain.b)(x, p) by {
            lemma_transposed_idx(o.la, p, x);
        }
        assert(con.b =~= plain.b);
        assert(con == plain);
    }
}

/// What element `(i, j)` of the output holds after an integer product with a prepacked `B`.
pub open spec fn int_packed_element(
    a: Seq<i8>,
    la: Layout,
    packed: PackedRhs<i8>,
    alpha: i32,
    beta: i32,
    i: int,
    j: int,
    old: i32,
) -> i32 {
    int_result(
        |i: int, p: int| a[la.idx(i, p)],
        packed.element(),
        packed.geometry().k as int,
        alpha,
        beta,
        i,
        j,
        old,
    )
}

/// An integer product with a prepacked `B` computes exactly what the plain one does.
pub proof fn law_int_prepacked_equals_plain<'a>(
    o: Operands<'a, i8>,
    packed: PackedRhs<i8>,
    alpha: i32,
    beta: i32,
    i: int,
    j: int,
    old: i32,
)
    requires
        packed.geometry().k == o.k,
        packed.element() == (|j: int, p: int| o.b@[o.lb.idx(p, j)]),
    ensures
        int_packed_element(o.a@, o.la, packed, alpha, beta, i, j, old) == int_element(
            o,
            alpha,
            beta,
            i,
            j,
            old,
        ),
{
    assert((|i: int, p: int| o.a@[o.la.idx(i, p)]) =~= (|i: int, p: int| o.a@[o.la.idx(i, p)]));
}

/// Whether an integer product with a prepacked `B` can be run: it is degenerate, or no size
/// overflows. The panels decide which kernel reads them.
pub open spec fn int_packed_runs(
    ctx: Context,
    par: Parallelism,
    m: usize,
    la: Layout,
    g: Packing,
    alpha: i32,
) -> bool {
    let mr = ctx.kernels.byte.mr;
    m == 0 || g.n == 0 || g.k == 0 || alpha == 0 || if g.q == 4 {
        packed_request::<IntGemm<true>>(mr, m, la, g).fits(ctx, par)
    } else {
        packed_request::<IntGemm<false>>(mr, m, la, g).fits(ctx, par)
    }
}

/// Run the driver with one of the two integer kernels.
fn consume_int<const DOT: bool>(
    ctx: &Context,
    par: Parallelism,
    m: usize,
    alpha: i32,
    a: &[i8],
    la: Layout,
    packed: &PackedRhs<i8>,
    beta: i32,
    c: &mut [i32],
    lc: Layout,
) -> (r: Result<(), GemmError>)
    requires
        ctx.kernels.valid(),
        0 < m,
        0 < packed.geometry().k,
        0 < packed.geometry().n,
        la.fits(m as int, packed.geometry().k as int, a@.len() as int),
        lc.fits(m as int, packed.geometry().n as int, old(c)@.len() as int),
        lc.distinct(m as int, packed.geometry().n as int),
    ensures
        r == outcome(
            None,
            packed_request::<IntGemm<DOT>>(
                ctx.kernels.byte.mr,
                m,
                la,
                packed.geometry(),
            ).fits(*ctx, par),
        ),
        r is Ok ==> written(
            old(c)@,
            final(c)@,
            lc,
            m as int,
            packed.geometry().n as int,
            |i: int, j: int, x: i32, y: i32|
                y == int_packed_element(a@, la, *packed, alpha, beta, i, j, x),
        ),
        r is Err ==> final(c)@ == old(c)@,
{
    let ghost c0 = c@;
    let r = run_packed_rhs_epilogue::<IntGemm<DOT>, Identity>(
        ctx,
        par,
        ctx.kernels.byte.mr,
        m,
        alpha,
        a,
        la,
        packed,
        beta,
        c,
        lc,
        &Identity,
    );
    match r {
        Ok(_) => {
            proof {
                let con = packed_contraction::<IntGemm<DOT>>(a@, la, *packed, alpha, beta);
                let got = |i: int, j: int, x: i32, y: i32|
                    <Identity as Epilogue<IntGemm<DOT>>>::stores(
                        &Identity,
                        con.total(i, j, x),
                        i,
                        j,
                        y,
                    );
                let want = |i: int, j: int, x: i32, y: i32|
                    y == int_packed_element(a@, la, *packed, alpha, beta, i, j, x);
                let n = packed.geometry().n as int;
                assert forall|i: int, j: int, x: i32, y: i32|
                    0 <= i < m && 0 <= j < n && #[trigger] got(i, j, x, y) implies want(
                    i,
                    j,
                    x,
                    y,
                ) by {
                    law_int_product_is_exact(con, i, j, x);
                }
                lemma_written_ext(c0, c@, lc, m as int, n, got, want);
            }
            Ok(())
        },
        Err(e) => Err(e),
    }
}

/// `C <- alpha*A*B + beta*C` over an `i8` view, a prepacked `i8` `B` and an `i32` output, under the
/// given context. C must not be laid out by rows.
pub fn gemm_i8_packed_b_with<'a>(
    ctx: &Context,
    alpha: i32,
    a: MatRef<'a, i8>,
    packed: &'a PackedRhs<i8>,
    beta: i32,
    c: MatMut<'_, i32>,
    par: Parallelism,
) -> (r: Result<(), GemmError>)
    requires
        ctx.kernels.valid(),
    ensures
        r == outcome(
            first_error(
                packed_b_error(a.geometry(), packed.geometry(), c.geometry()),
                packed_b_orientation(c.rs, c.cs),
            ),
            int_packed_runs(*ctx, par, a.rows, a.layout_spec(), packed.geometry(), alpha),
        ),
        r is Ok ==> written(
            old(c.data)@,
            final(c.data)@,
            c.layout_spec(),
            c.rows as int,
            c.cols as int,
            |i: int, j: int, x: i32, y: i32|
                y == int_packed_element(
                    a.data@,
                    a.layout_spec(),
                    *packed,
                    alpha,
                    beta,
                    i,
                    j,
                    x,
                ),
        ),
        r is Err ==> final(c.data)@ == old(c.data)@,
{
    if let Err(e) = validate_packed_b(&a, packed, &c) {
        return Err(e);
    }
    proof {
        law_extent_is_tight(a.rows, a.cols, a.rs, a.cs);
        law_extent_is_tight(c.rows, c.cols, c.rs, c.cs);
        law_no_self_alias_is_distinct(c.rows, c.cols, c.rs, c.cs, 0);
    }
    let lc: Layout = c.layout();
    gemm_i8_packed_b_unchecked_with(
        ctx,
        alpha,
        a.rows,
        a.data,
        a.layout(),
        packed,
        beta,
        c.data,
        lc,
        par,
    )
}

/// [`gemm_i8_packed_b_with`] under the default context.
pub fn gemm_i8_packed_b<'a>(
    alpha: i32,
    a: MatRef<'a, i8>,
    packed: &'a PackedRhs<i8>,
    beta: i32,
    c: MatMut<'_, i32>,
    par: Parallelism,
) -> (r: Result<(), GemmError>)
    ensures
        r == outcome(
            first_error(
                packed_b_error(a.geometry(), packed.geometry(), c.geometry()),
                packed_b_orientation(c.rs, c.cs),
            ),
            int_packed_runs(
                default_context(),
                par,
                a.rows,
                a.layout_spec(),
                packed.geometry(),
                alpha,
            ),
        ),
        r is Ok ==> written(
            old(c.data)@,
            final(c.data)@,
            c.layout_spec(),
            c.rows as int,
            c.cols as int,
            |i: int, j: int, x: i32, y: i32|
                y == int_packed_element(
                    a.data@,
                    a.layout_spec(),
                    *packed,
                    alpha,
                    beta,
                    i,
                    j,
                    x,
                ),
        ),
        r is Err ==> final(c.data)@ == old(c.data)@,
{
    gemm_i8_packed_b_with(&Context::new(), alpha, a, packed, beta, c, par)
}

/// `C <- alpha*A*B + beta*C` with a prepacked `B`, for operands that are known to fit their slices.
pub fn gemm_packed_b_unchecked_with<'a, T: GemmScalar>(
    ctx: &Context,
    req: PackedConsume<'a, T>,
    c: &mut [T],
    par: Parallelism,
) -> (r: Result<(), GemmError>)
    requires
        ctx.kernels.valid(),
        req.valid(old(c)@.len() as int),
    ensures
        r == outcome(packed_b_orientation(req.lc.rs, req.lc.cs), req.runs(*ctx, par)),
        r is Ok ==> written(
            old(c)@,
            final(c)@,
            req.lc,
            req.m as int,
            req.packed.geometry().n as int,
            |i: int, j: int, x: T, y: T| y == req.element(*ctx, i, j, x),
        ),
        r is Err ==> final(c)@ == old(c)@,
{
    if unsigned_abs(req.lc.cs) < unsigned_abs(req.lc.rs) {
        return Err(GemmError::Orientation);
    }
    execute_packed(ctx, req, par, c)
}

/// [`gemm_packed_b_unchecked_with`] under the default context.
pub fn gemm_packed_b_unchecked<'a, T: GemmScalar>(
    req: PackedConsume<'a, T>,
    c: &mut [T],
    par: Parallelism,
) -> (r: Result<(), GemmError>)
    requires
        req.valid(old(c)@.len() as int),
    ensures
        r == outcome(packed_b_orientation(req.lc.rs, req.lc.cs), req.runs(default_context(), par)),
        r is Ok ==> written(
            old(c)@,
            final(c)@,
            req.lc,
            req.m as int,
            req.packed.geometry().n as int,
            |i: int, j: int, x: T, y: T| y == req.element(default_context(), i, j, x),
        ),
        r is Err ==> final(c)@ == old(c)@,
{
    gemm_packed_b_unchecked_with(&Context::new(), req, c, par)
}

/// The product of a prepacked `A` and an operand of `n` columns, as the transposed product that is
/// run.
pub open spec fn known_a_request<'a, T>(
    alpha: T,
    packed: &'a PackedRhs<T>,
    n: usize,
    b: &'a [T],
    lb: Layout,
    beta: T,
    lc: Layout,
) -> PackedConsume<'a, T> {
    PackedConsume {
        m: n,
        alpha,
        a: b,
        la: lb.transposed(),
        packed,
        beta,
        lc: lc.transposed(),
    }
}

/// `C <- alpha*A*B + beta*C` with a prepacked `A`, for operands that are known to fit their slices.
pub fn gemm_packed_a_unchecked_with<'a, T: GemmScalar>(
    ctx: &Context,
    alpha: T,
    packed: &'a PackedLhs<T>,
    n: usize,
    b: &'a [T],
    lb: Layout,
    beta: T,
    c: &mut [T],
    lc: Layout,
    par: Parallelism,
) -> (r: Result<(), GemmError>)
    requires
        ctx.kernels.valid(),
        known_a_request(alpha, &packed.as_rhs(), n, b, lb, beta, lc).valid(old(c)@.len() as int),
    ensures
        r == outcome(
            packed_a_orientation(lc.rs, lc.cs),
            known_a_request(alpha, &packed.as_rhs(), n, b, lb, beta, lc).runs(*ctx, par),
        ),
        r is Ok ==> written(
            old(c)@,
            final(c)@,
            lc,
            packed.as_rhs().geometry().n as int,
            n as int,
            |i: int, j: int, x: T, y: T|
                y == known_a_request(alpha, &packed.as_rhs(), n, b, lb, beta, lc).element(
                    *ctx,
                    j,
                    i,
                    x,
                ),
        ),
        r is Err ==> final(c)@ == old(c)@,
{
    if unsigned_abs(lc.cs) > unsigned_abs(lc.rs) {
        return Err(GemmError::Orientation);
    }
    let ghost c0 = c@;
    let ghost m = packed.as_rhs().geometry().n as int;
    let req: PackedConsume<'a, T> = PackedConsume {
        m: n,
        alpha,
        a: b,
        la: lb.transposed(),
        packed: packed.rhs(),
        beta,
        lc: lc.transposed(),
    };
    assert(req == known_a_request(alpha, &packed.as_rhs(), n, b, lb, beta, lc));
    let r = execute_packed(ctx, req, par, c);
    proof {
        if r is Ok {
            let want = |i: int, j: int, x: T, y: T| y == req.element(*ctx, j, i, x);
            lemma_written_ext(
                c0,
                c@,
                req.lc,
                n as int,
                m,
                |i: int, j: int, x: T, y: T| y == req.element(*ctx, i, j, x),
                |i: int, j: int, x: T, y: T| want(j, i, x, y),
            );
            lemma_written_transposed(c0, c@, lc, m, n as int, want);
        }
    }
    r
}

/// [`gemm_packed_a_unchecked_with`] under the default context.
pub fn gemm_packed_a_unchecked<'a, T: GemmScalar>(
    alpha: T,
    packed: &'a PackedLhs<T>,
    n: usize,
    b: &'a [T],
    lb: Layout,
    beta: T,
    c: &mut [T],
    lc: Layout,
    par: Parallelism,
) -> (r: Result<(), GemmError>)
    requires
        known_a_request(alpha, &packed.as_rhs(), n, b, lb, beta, lc).valid(old(c)@.len() as int),
    ensures
        r == outcome(
            packed_a_orientation(lc.rs, lc.cs),
            known_a_request(
                alpha,
                &packed.as_rhs(),
                n,
                b,
                lb,
                beta,
                lc,
            ).runs(default_context(), par),
        ),
        r is Ok ==> written(
            old(c)@,
            final(c)@,
            lc,
            packed.as_rhs().geometry().n as int,
            n as int,
            |i: int, j: int, x: T, y: T|
                y == known_a_request(alpha, &packed.as_rhs(), n, b, lb, beta, lc).element(
                    default_context(),
                    j,
                    i,
                    x,
                ),
        ),
        r is Err ==> final(c)@ == old(c)@,
{
    gemm_packed_a_unchecked_with(&Context::new(), alpha, packed, n, b, lb, beta, c, lc, par)
}

/// `C <- act(alpha*A*B + beta*C + bias)` with a prepacked `B`, for operands that are known to fit
/// their slices. The bias is read only with `has_bias`.
pub fn gemm_packed_b_fused_unchecked_with<'a, T: FusedScalar>(
    ctx: &Context,
    req: PackedConsume<'a, T>,
    c: &mut [T],
    bias: &'a [T],
    bias_dim: BiasDim,
    has_bias: bool,
    act: Option<Activation<T>>,
    par: Parallelism,
) -> (r: Result<(), GemmError>)
    requires
        ctx.kernels.valid(),
        req.valid(old(c)@.len() as int),
        fused_epi_spec(raw_bias(bias, bias_dim, has_bias), act).bias.covers(
            req.m as int,
            req.packed.geometry().n as int,
        ),
    ensures
        r == outcome(packed_b_orientation(req.lc.rs, req.lc.cs), req.runs(*ctx, par)),
        r is Ok ==> written(
            old(c)@,
            final(c)@,
            req.lc,
            req.m as int,
            req.packed.geometry().n as int,
            |i: int, j: int, x: T, y: T|
                y == req.fused_element(
                    *ctx,
                    fused_epi_spec(raw_bias(bias, bias_dim, has_bias), act),
                    i,
                    j,
                    x,
                    i,
                    j,
                ),
        ),
        r is Err ==> final(c)@ == old(c)@,
{
    if unsigned_abs(req.lc.cs) < unsigned_abs(req.lc.rs) {
        return Err(GemmError::Orientation);
    }
    let ghost c0 = c@;
    let epi: FusedEpi<'a, T> = to_fused_epi_raw(bias, bias_dim, has_bias, act);
    let r = execute_packed_epi(ctx, req, &epi, par, c);
    proof {
        if r is Ok {
            lemma_written_ext(
                c0,
                c@,
                req.lc,
                req.m as int,
                req.packed.geometry().n as int,
                |i: int, j: int, x: T, y: T| y == req.fused_element(*ctx, epi, i, j, x, i, j),
                |i: int, j: int, x: T, y: T|
                    y == req.fused_element(
                        *ctx,
                        fused_epi_spec(raw_bias(bias, bias_dim, has_bias), act),
                        i,
                        j,
                        x,
                        i,
                        j,
                    ),
            );
        }
    }
    r
}

/// [`gemm_packed_b_fused_unchecked_with`] under the default context.
pub fn gemm_packed_b_fused_unchecked<'a, T: FusedScalar>(
    req: PackedConsume<'a, T>,
    c: &mut [T],
    bias: &'a [T],
    bias_dim: BiasDim,
    has_bias: bool,
    act: Option<Activation<T>>,
    par: Parallelism,
) -> (r: Result<(), GemmError>)
    requires
        req.valid(old(c)@.len() as int),
        fused_epi_spec(raw_bias(bias, bias_dim, has_bias), act).bias.covers(
            req.m as int,
            req.packed.geometry().n as int,
        ),
    ensures
        r == outcome(packed_b_orientation(req.lc.rs, req.lc.cs), req.runs(default_context(), par)),
        r is Ok ==> written(
            old(c)@,
            final(c)@,
            req.lc,
            req.m as int,
            req.packed.geometry().n as int,
            |i: int, j: int, x: T, y: T|
                y == req.fused_element(
                    default_context(),
                    fused_epi_spec(raw_bias(bias, bias_dim, has_bias), act),
                    i,
                    j,
                    x,
                    i,
                    j,
                ),
        ),
        r is Err ==> final(c)@ == old(c)@,
{
    gemm_packed_b_fused_unchecked_with(&Context::new(), req, c, bias, bias_dim, has_bias, act, par)
}

/// `C <- act(alpha*A*B + beta*C + bias)` with a prepacked `A`, for operands that are known to fit
/// their slices. The bias is read only with `has_bias`.
pub fn gemm_packed_a_fused_unchecked_with<'a, T: FusedScalar>(
    ctx: &Context,
    alpha: T,
    packed: &'a PackedLhs<T>,
    n: usize,
    b: &'a [T],
    lb: Layout,
    beta: T,
    c: &mut [T],
    lc: Layout,
    bias: &'a [T],
    bias_dim: BiasDim,
    has_bias: bool,
    act: Option<Activation<T>>,
    par: Parallelism,
) -> (r: Result<(), GemmError>)
    requires
        ctx.kernels.valid(),
        known_a_request(alpha, &packed.as_rhs(), n, b, lb, beta, lc).valid(old(c)@.len() as int),
        fused_epi_spec(raw_bias(bias, bias_dim, has_bias), act).bias.covers(
            packed.as_rhs().geometry().n as int,
            n as int,
        ),
    ensures
        r == outcome(
            packed_a_orientation(lc.rs, lc.cs),
            known_a_request(alpha, &packed.as_rhs(), n, b, lb, beta, lc).runs(*ctx, par),
        ),
        r is Ok ==> written(
            old(c)@,
            final(c)@,
            lc,
            packed.as_rhs().geometry().n as int,
            n as int,
            |i: int, j: int, x: T, y: T|
                y == known_a_request(alpha, &packed.as_rhs(), n, b, lb, beta, lc).fused_element(
                    *ctx,
                    fused_epi_spec(raw_bias(bias, bias_dim, has_bias), act),
                    j,
                    i,
                    x,
                    i,
                    j,
                ),
        ),
        r is Err ==> final(c)@ == old(c)@,
{
    if unsigned_abs(lc.cs) > unsigned_abs(lc.rs) {
        return Err(GemmError::Orientation);
    }
    let ghost c0 = c@;
    let ghost m = packed.as_rhs().geometry().n as int;
    let epi: FusedEpi<'a, T> = to_fused_epi_raw(bias, bias_dim, has_bias, act);
    let flipped: FusedEpi<'a, T> = <FusedEpi<'a, T> as Epilogue<Plain<T>>>::flip(&epi);
    let req: PackedConsume<'a, T> = PackedConsume {
        m: n,
        alpha,
        a: b,
        la: lb.transposed(),
        packed: packed.rhs(),
        beta,
        lc: lc.transposed(),
    };
    assert(req == known_a_request(alpha, &packed.as_rhs(), n, b, lb, beta, lc));
    let r = execute_packed_epi(ctx, req, &flipped, par, c);
    proof {
        if r is Ok {
            let want = |i: int, j: int, x: T, y: T|
                y == req.fused_element(
                    *ctx,
                    fused_epi_spec(raw_bias(bias, bias_dim, has_bias), act),
                    j,
                    i,
                    x,
                    i,
                    j,
                );
            lemma_written_ext(
                c0,
                c@,
                req.lc,
                n as int,
                m,
                |i: int, j: int, x: T, y: T| y == req.fused_element(*ctx, flipped, i, j, x, i, j),
                |i: int, j: int, x: T, y: T| want(j, i, x, y),
            );
            lemma_written_transposed(c0, c@, lc, m, n as int, want);
        }
    }
    r
}

/// [`gemm_packed_a_fused_unchecked_with`] under the default context.
pub fn gemm_packed_a_fused_unchecked<'a, T: FusedScalar>(
    alpha: T,
    packed: &'a PackedLhs<T>,
    n: usize,
    b: &'a [T],
    lb: Layout,
    beta: T,
    c: &mut [T],
    lc: Layout,
    bias: &'a [T],
    bias_dim: BiasDim,
    has_bias: bool,
    act: Option<Activation<T>>,
    par: Parallelism,
) -> (r: Result<(), GemmError>)
    requires
        known_a_request(alpha, &packed.as_rhs(), n, b, lb, beta, lc).valid(old(c)@.len() as int),
        fused_epi_spec(raw_bias(bias, bias_dim, has_bias), act).bias.covers(
            packed.as_rhs().geometry().n as int,
            n as int,
        ),
    ensures
        r == outcome(
            packed_a_orientation(lc.rs, lc.cs),
            known_a_request(
                alpha,
                &packed.as_rhs(),
                n,
                b,
                lb,
                beta,
                lc,
            ).runs(default_context(), par),
        ),
        r is Ok ==> written(
            old(c)@,
            final(c)@,
            lc,
            packed.as_rhs().geometry().n as int,
            n as int,
            |i: int, j: int, x: T, y: T|
                y == known_a_request(alpha, &packed.as_rhs(), n, b, lb, beta, lc).fused_element(
                    default_context(),
                    fused_epi_spec(raw_bias(bias, bias_dim, has_bias), act),
                    j,
                    i,
                    x,
                    i,
                    j,
                ),
        ),
        r is Err ==> final(c)@ == old(c)@,
{
    gemm_packed_a_fused_unchecked_with(
        &Context::new(),
        alpha,
        packed,
        n,
        b,
        lb,
        beta,
        c,
        lc,
        bias,
        bias_dim,
        has_bias,
        act,
        par,
    )
}

/// The integer product with a prepacked `B`, for operands that are known to fit their slices.
pub fn gemm_i8_packed_b_unchecked_with<'a>(
    ctx: &Context,
    alpha: i32,
    m: usize,
    a: &'a [i8],
    la: Layout,
    packed: &'a PackedRhs<i8>,
    beta: i32,
    c: &mut [i32],
    lc: Layout,
    par: Parallelism,
) -> (r: Result<(), GemmError>)
    requires
        ctx.kernels.valid(),
        la.fits(m as int, packed.geometry().k as int, a@.len() as int),
        lc.fits(m as int, packed.geometry().n as int, old(c)@.len() as int),
        lc.distinct(m as int, packed.geometry().n as int),
    ensures
        r == outcome(
            packed_b_orientation(lc.rs, lc.cs),
            int_packed_runs(*ctx, par, m, la, packed.geometry(), alpha),
        ),
        r is Ok ==> written(
            old(c)@,
            final(c)@,
            lc,
            m as int,
            packed.geometry().n as int,
            |i: int, j: int, x: i32, y: i32|
                y == int_packed_element(a@, la, *packed, alpha, beta, i, j, x),
        ),
        r is Err ==> final(c)@ == old(c)@,
{
    if unsigned_abs(lc.cs) < unsigned_abs(lc.rs) {
        return Err(GemmError::Orientation);
    }
    let ghost c0 = c@;
    let (n, k): (usize, usize) = (packed.cols(), packed.rows());
    if m == 0 || n == 0 {
        return Ok(());
    }
    if k == 0 || alpha == 0 {
        scale_c_int(beta, c, lc, m, n);
        proof {
            let got = |i: int, j: int, x: i32, y: i32| y == wrap_i32(beta * x);
            let want = |i: int, j: int, x: i32, y: i32|
                y == int_packed_element(a@, la, *packed, alpha, beta, i, j, x);
            assert forall|i: int, j: int, x: i32, y: i32|
                0 <= i < m && 0 <= j < n && #[trigger] got(i, j, x, y) implies want(
                i,
                j,
                x,
                y,
            ) by {
                let fa = |i: int, p: int| a@[la.idx(i, p)];
                let s = int_sum(
                    |p: int| fa(i, p),
                    |p: int| (packed.element())(j, p),
                    0,
                    k as int,
                );
                assert(alpha * s == 0) by (nonlinear_arith)
                    requires
                        alpha == 0 || s == 0,
                ;
            }
            lemma_written_ext(c0, c@, lc, m as int, n as int, got, want);
        }
        return Ok(());
    }
    if packed.depth_multiple() == 4 {
        consume_int::<true>(ctx, par, m, alpha, a, la, packed, beta, c, lc)
    } else {
        consume_int::<false>(ctx, par, m, alpha, a, la, packed, beta, c, lc)
    }
}

/// [`gemm_i8_packed_b_unchecked_with`] under the default context.
pub fn gemm_i8_packed_b_unchecked<'a>(
    alpha: i32,
    m: usize,
    a: &'a [i8],
    la: Layout,
    packed: &'a PackedRhs<i8>,
    beta: i32,
    c: &mut [i32],
    lc: Layout,
    par: Parallelism,
) -> (r: Result<(), GemmError>)
    requires
        la.fits(m as int, packed.geometry().k as int, a@.len() as int),
        lc.fits(m as int, packed.geometry().n as int, old(c)@.len() as int),
        lc.distinct(m as int, packed.geometry().n as int),
    ensures
        r == outcome(
            packed_b_orientation(lc.rs, lc.cs),
            int_packed_runs(default_context(), par, m, la, packed.geometry(), alpha),
        ),
        r is Ok ==> written(
            old(c)@,
            final(c)@,
            lc,
            m as int,
            packed.geometry().n as int,
            |i: int, j: int, x: i32, y: i32|
                y == int_packed_element(a@, la, *packed, alpha, beta, i, j, x),
        ),
        r is Err ==> final(c)@ == old(c)@,
{
    gemm_i8_packed_b_unchecked_with(&Context::new(), alpha, m, a, la, packed, beta, c, lc, par)
}

} // verus!
