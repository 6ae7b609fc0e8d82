//! Operands packed once for reuse across many products.

use vstd::arithmetic::div_mod::*;
use vstd::prelude::*;

use crate::api::{check_view, law_extent_is_tight, MatRef};
use crate::arith::{
    checked_next_multiple_of, div_up, lemma_div_up, max_int, max_usize, min_int, min_usize,
    round_up, saturate,
};
use crate::cache::{Blocking, Shape};
use crate::dispatch::written;
use crate::driver::{prepacked_strip, request_spec, run_inner, Rhs};
use crate::element::GemmScalar;
use crate::error::{GemmError, Operand};
use crate::gemm_i8::{i8_rhs_depth_multiple, i8_rhs_tile};
use crate::homog::{lemma_done_written, lemma_scratch_layout};
use crate::kernel::{Epilogue, KernelFamily};
use crate::layout::{lemma_transposed, lemma_transposed_idx, Layout};
use crate::packed::{pack_rhs_full, Packing};
use crate::panel::{Panel, Strip};
use crate::parallel::{Context, Parallelism};
use crate::plan::Request;
use crate::product::{Contraction, Product};

verus! {

/// The shape that a prepacked operand is blocked for. Its rows are one more than the
/// small-matrix case takes, so that the geometry serves every later row count.
pub open spec fn prepack_shape(
    ctx: Context,
    mr: usize,
    nr: usize,
    sizeof: int,
    k: usize,
    n: usize,
) -> Shape {
    Shape {
        mr: mr as int,
        nr: nr as int,
        sizeof,
        m: saturate(ctx.tuning.tiny_block_dim + 1),
        n: n as int,
        k: k as int,
    }
}

/// No size of the packed operand overflows.
pub open spec fn prepack_fits(
    ctx: Context,
    mr: usize,
    nr: usize,
    sizeof: int,
    k: usize,
    n: usize,
    q: usize,
) -> bool {
    let s = prepack_shape(ctx, mr, nr, sizeof, k, n);
    let top = usize::MAX as int;
    &&& ctx.machine.cache.blocking_fits(ctx.tuning, s)
    &&& round_up(ctx.machine.cache.blocking_spec(ctx.tuning, s).2, nr as int) <= top
    &&& round_up(n as int, nr as int) * round_up(k as int, q as int) <= top
}

/// The geometry of a packed operand: the model's slices and column blocks, or one undivided
/// slice.
pub open spec fn prepack_geometry(
    ctx: Context,
    mr: usize,
    nr: usize,
    sizeof: int,
    k: usize,
    n: usize,
    q: usize,
    single: bool,
) -> Packing {
    let s = prepack_shape(ctx, mr, nr, sizeof, k, n);
    let blk = ctx.machine.cache.blocking_spec(ctx.tuning, s);
    Packing {
        k,
        n,
        kc: if single {
            k
        } else {
            max_int(blk.1, 1) as usize
        },
        nc: max_int(round_up(blk.2, nr as int), nr as int) as usize,
        nr,
        q,
    }
}

fn packing_for(
    ctx: &Context,
    mr: usize,
    nr: usize,
    sizeof: usize,
    k: usize,
    n: usize,
    q: usize,
    single: bool,
) -> (r: Option<Packing>)
    requires
        mr > 0,
        nr > 0,
        sizeof > 0,
        k > 0,
        n > 0,
        q > 0,
        q == 1 || single,
    ensures
        r is Some <==> prepack_fits(*ctx, mr, nr, sizeof as int, k, n, q),
        r matches Some(g) ==> g == prepack_geometry(
            *ctx,
            mr,
            nr,
            sizeof as int,
            k,
            n,
            q,
            single,
        ) && g.valid() && g.total() <= usize::MAX,
{
    let rows: usize = ctx.tuning.tiny_block_dim.saturating_add(1);
    let blk: Blocking = match ctx.machine.cache.checked_blocking(
        &ctx.tuning,
        mr,
        nr,
        sizeof,
        rows,
        n,
        k,
    ) {
        Some(b) => b,
        None => return None,
    };
    proof {
        lemma_div_up(blk.nc as int, nr as int);
        lemma_div_up(n as int, nr as int);
        lemma_div_up(k as int, q as int);
        vstd::arithmetic::div_mod::lemma_mod_self_0(nr as int);
        let nn = round_up(n as int, nr as int);
        let kk = round_up(k as int, q as int);
        assert(nn <= nn * kk && kk <= nn * kk) by (nonlinear_arith)
            requires
                nn >= 1,
                kk >= 1,
        ;
    }
    let nc: usize = match checked_next_multiple_of(blk.nc, nr) {
        Some(v) => max_usize(v, nr),
        None => return None,
    };
    let cols: usize = match checked_next_multiple_of(n, nr) {
        Some(v) => v,
        None => return None,
    };
    let depth: usize = match checked_next_multiple_of(k, q) {
        Some(v) => v,
        None => return None,
    };
    if cols.checked_mul(depth).is_none() {
        return None;
    }
    let kc: usize = if single {
        k
    } else {
        max_usize(blk.kc, 1)
    };
    Some(Packing { k, n, kc, nc, nr, q })
}

/// A right operand packed once, for products that share it. It remembers the geometry it was
/// packed for, and every product reads it back with that geometry.
pub struct PackedRhs<T> {
    buf: Vec<T>,
    g: Packing,
    v: Ghost<spec_fn(int, int) -> T>,
}

impl<T> PackedRhs<T> {
    /// The geometry of the buffer.
    pub closed spec fn geometry(self) -> Packing {
        self.g
    }

    /// Column `j` at depth `p` of the operand, as `element(j, p)`.
    pub closed spec fn element(self) -> spec_fn(int, int) -> T {
        self.v@
    }

    #[verifier::type_invariant]
    spec fn wf(self) -> bool {
        self.g.k == 0 || self.g.n == 0 || self.g.holds(self.buf@, self.v@)
    }

    /// Row count of the operand: the depth of the products that use it.
    pub fn rows(&self) -> (r: usize)
        ensures
            r == self.geometry().k,
    {
        self.g.k
    }

    /// Column count of the operand.
    pub fn cols(&self) -> (r: usize)
        ensures
            r == self.geometry().n,
    {
        self.g.n
    }

    /// The geometry of the buffer.
    pub(crate) fn packing(&self) -> (r: Packing)
        ensures
            r == self.geometry(),
            r.k > 0 && r.n > 0 ==> r.valid(),
    {
        proof {
            use_type_invariant(self);
        }
        self.g
    }

    /// Column `j` of the operand at depth `p`, read from its panel.
    fn at(&self, j: usize, p: usize) -> (r: T) where T: Copy
        requires
            j < self.geometry().n,
            p < self.geometry().k,
        ensures
            r == (self.element())(j as int, p as int),
    {
        proof {
            use_type_invariant(self);
            lemma_block_of(j as int, self.g.nc as int, self.g.n as int);
            lemma_block_of(p as int, self.g.kc as int, self.g.k as int);
        }
        let (jb, t): (usize, usize) = (j / self.g.nc, p / self.g.kc);
        let (jc, pc): (usize, usize) = (jb * self.g.nc, t * self.g.kc);
        let cols: usize = min_usize(self.g.nc, self.g.n - jc);
        let depth: usize = min_usize(self.g.kc, self.g.k - pc);
        let x: usize = j - jc;
        proof {
            lemma_block_of(x as int, self.g.nr as int, cols as int);
        }
        let strip: Strip = prepacked_strip(
            self.g,
            jc,
            cols,
            pc,
            depth,
            Ghost(jb as int),
            Ghost(t as int),
        );
        let r: usize = x / self.g.nr;
        let lane: usize = x - r * self.g.nr;
        let ghost first = jc + r * self.g.nr;
        let ghost lanes = min_int(self.g.nr as int, cols - r * self.g.nr);
        assert(strip == self.g.strip(jb as int, t as int));
        assert(strip.holds(self.buf@, self.v@, jc as int, pc as int, cols as int, depth as int));
        assert(strip.panel_spec(r as int).holds(
            self.buf@,
            self.v@,
            first,
            pc as int,
            lanes,
            depth as int,
        ));
        let panel: Panel = strip.panel(r, Ghost(cols as int), Ghost(depth as int));
        panel.read(
            self.buf.as_slice(),
            lane,
            p - pc,
            Ghost(self.v@),
            Ghost(first),
            Ghost(pc as int),
            Ghost(lanes),
            Ghost(depth as int),
        )
    }

    /// The operand, taken out of its panels into a buffer by columns.
    pub(crate) fn unpack(&self) -> (r: Vec<T>) where T: Copy
        requires
            0 < self.geometry().k,
            0 < self.geometry().n,
            self.geometry().k * self.geometry().n <= isize::MAX,
        ensures
            r@.len() == self.geometry().k * self.geometry().n,
            ({
                let lb = Layout { off: 0, rs: 1, cs: self.geometry().k as isize };
                &&& lb.fits(
                    self.geometry().k as int,
                    self.geometry().n as int,
                    r@.len() as int,
                )
                &&& forall|p: int, j: int|
                    0 <= p < self.geometry().k && 0 <= j < self.geometry().n ==> r@[
                        #[trigger] lb.idx(p, j)
                    ] == (self.element())(j, p)
            }),
    {
        let (k, n): (usize, usize) = (self.g.k, self.g.n);
        let total: usize = k * n;
        let mut out: Vec<T> = Vec::new();
        while out.len() < total
            invariant
                k == self.geometry().k,
                n == self.geometry().n,
                k > 0,
                total == k * n,
                out@.len() <= total,
                forall|s: int|
                    0 <= s < out@.len() ==> #[trigger] out@[s] == (self.element())(
                        s / (k as int),
                        s % (k as int),
                    ),
            decreases total - out@.len(),
        {
            let s: usize = out.len();
            proof {
                lemma_fundamental_div_mod(s as int, k as int);
                lemma_mod_bound(s as int, k as int);
                assert(s / k < n) by (nonlinear_arith)
                    requires
                        s < k * n,
                        s == k * (s / k) + s % k,
                        0 <= s % k,
                        k > 0,
                ;
            }
            out.push(self.at(s / k, s % k));
        }
        proof {
            let lb = Layout { off: 0, rs: 1, cs: k as isize };
            lemma_scratch_layout(k, n);
            assert forall|p: int, j: int| 0 <= p < k && 0 <= j < n implies out@[
                #[trigger] lb.idx(p, j)
            ] == (self.element())(j, p) by {
                assert(0 <= lb.idx(p, j) < total);
                reveal(Layout::idx);
                assert(lb.idx(p, j) == j * k + p);
                lemma_fundamental_div_mod_converse(j * k + p, k as int, j, p);
            }
        }
        out
    }

    /// The depth that panels are padded to a multiple of.
    pub(crate) fn depth_multiple(&self) -> (r: usize)
        ensures
            r == self.geometry().q,
    {
        self.g.q
    }
}

/// The block of `b` that `j` lies in.
proof fn lemma_block_of(j: int, b: int, n: int)
    requires
        0 <= j < n,
        b > 0,
    ensures
        0 <= j / b < div_up(n, b),
        0 <= (j / b) * b <= j < (j / b) * b + b,
{
    lemma_fundamental_div_mod(j, b);
    lemma_mod_bound(j, b);
    lemma_div_pos_is_pos(j, b);
    lemma_div_up(n, b);
    let q = j / b;
    assert(q * b == b * q) by (nonlinear_arith);
    assert(q * b >= 0) by (nonlinear_arith)
        requires
            q >= 0,
            b > 0,
    ;
    assert(q < div_up(n, b)) by (nonlinear_arith)
        requires
            q * b < div_up(n, b) * b,
            b > 0,
    ;
}

/// A left operand packed once. It is the right operand of the transposed product, packed.
pub struct PackedLhs<T> {
    t: PackedRhs<T>,
}

impl<T> PackedLhs<T> {
    /// The right operand of the transposed product.
    pub closed spec fn as_rhs(self) -> PackedRhs<T> {
        self.t
    }

    /// See [`PackedLhs::as_rhs`].
    pub(crate) fn rhs(&self) -> (r: &PackedRhs<T>)
        ensures
            *r == self.as_rhs(),
    {
        &self.t
    }

    /// Row count of the operand.
    pub fn rows(&self) -> (r: usize)
        ensures
            r == self.as_rhs().geometry().n,
    {
        self.t.cols()
    }

    /// Column count of the operand: the depth of the products that use it.
    pub fn cols(&self) -> (r: usize)
        ensures
            r == self.as_rhs().geometry().k,
    {
        self.t.rows()
    }
}

/// Pack a `k x n` operand at a layout that is known to fit its slice.
fn prepack<T: Copy>(
    ctx: &Context,
    b: &[T],
    lb: Layout,
    k: usize,
    n: usize,
    mr: usize,
    nr: usize,
    sizeof: usize,
    q: usize,
    single: bool,
    pad: T,
) -> (r: Result<PackedRhs<T>, GemmError>)
    requires
        mr > 0,
        nr > 0,
        sizeof > 0,
        q > 0,
        q == 1 || single,
        lb.fits(k as int, n as int, b@.len() as int),
    ensures
        r is Ok <==> k == 0 || n == 0 || prepack_fits(*ctx, mr, nr, sizeof as int, k, n, q),
        r matches Ok(p) ==> {
            &&& p.geometry() == (if k == 0 || n == 0 {
                Packing { k, n, kc: 1, nc: nr, nr, q }
            } else {
                prepack_geometry(*ctx, mr, nr, sizeof as int, k, n, q, single)
            })
            &&& p.element() == (|j: int, p: int| b@[lb.idx(p, j)])
        },
        r matches Err(e) ==> e == GemmError::TooLarge,
{
    let ghost v = |j: int, p: int| b@[lb.idx(p, j)];
    if k == 0 || n == 0 {
        return Ok(
            PackedRhs { buf: Vec::new(), g: Packing { k, n, kc: 1, nc: nr, nr, q }, v: Ghost(v) },
        );
    }
    match packing_for(ctx, mr, nr, sizeof, k, n, q, single) {
        None => Err(GemmError::TooLarge),
        Some(g) => {
            let buf: Vec<T> = pack_rhs_full(b, lb, g, pad, Ghost(v));
            Ok(PackedRhs { buf, g, v: Ghost(v) })
        },
    }
}

/// The geometry of a packed homogeneous operand. The depth of a narrow type is not split.
pub open spec fn rhs_geometry<T: GemmScalar>(ctx: Context, k: usize, n: usize) -> Packing {
    let (mr, nr) = T::rhs_tile_spec(ctx.kernels);
    let q = T::rhs_depth_multiple_spec(ctx.kernels);
    if k == 0 || n == 0 {
        Packing { k, n, kc: 1, nc: nr, nr, q }
    } else {
        prepack_geometry(
            ctx,
            mr,
            nr,
            max_int(vstd::layout::size_of::<T>() as usize as int, 1),
            k,
            n,
            q,
            !T::out_is_acc_spec(),
        )
    }
}

/// No size of a packed homogeneous operand overflows.
pub open spec fn rhs_packs<T: GemmScalar>(ctx: Context, k: usize, n: usize) -> bool {
    let (mr, nr) = T::rhs_tile_spec(ctx.kernels);
    k == 0 || n == 0 || prepack_fits(
        ctx,
        mr,
        nr,
        max_int(vstd::layout::size_of::<T>() as usize as int, 1),
        k,
        n,
        T::rhs_depth_multiple_spec(ctx.kernels),
    )
}

/// Pack a right operand that is known to fit its slice, at any offset and with strides of either
/// sign.
pub fn prepack_rhs_unchecked<T: GemmScalar>(
    ctx: &Context,
    b: &[T],
    lb: Layout,
    k: usize,
    n: usize,
) -> (r: Result<PackedRhs<T>, GemmError>)
    requires
        ctx.kernels.valid(),
        lb.fits(k as int, n as int, b@.len() as int),
    ensures
        r is Ok <==> rhs_packs::<T>(*ctx, k, n),
        r matches Ok(p) ==> p.geometry() == rhs_geometry::<T>(*ctx, k, n) && p.element() == (
        |j: int, p: int| b@[lb.idx(p, j)]),
        r matches Err(e) ==> e == GemmError::TooLarge,
{
    let (mr, nr): (usize, usize) = T::rhs_tile(&ctx.kernels);
    proof {
        T::depth_multiple_is_sound(ctx.kernels);
    }
    prepack(
        ctx,
        b,
        lb,
        k,
        n,
        mr,
        nr,
        max_usize(core::mem::size_of::<T>(), 1),
        T::rhs_depth_multiple(&ctx.kernels),
        !T::out_is_acc(),
        T::zero(),
    )
}

/// Pack a right operand for reuse. Any layout is accepted, and read through its strides.
pub fn prepack_rhs<T: GemmScalar>(ctx: &Context, b: MatRef<'_, T>) -> (r: Result<
    PackedRhs<T>,
    GemmError,
>)
    requires
        ctx.kernels.valid(),
    ensures
        r is Ok <==> b.geometry().in_bounds() && rhs_packs::<T>(*ctx, b.rows, b.cols),
        r matches Ok(p) ==> p.geometry() == rhs_geometry::<T>(*ctx, b.rows, b.cols)
            && p.element() == (|j: int, p: int| b.at(p, j)),
        r matches Err(e) ==> e == (if b.geometry().in_bounds() {
            GemmError::TooLarge
        } else {
            b.geometry().error(Operand::B)
        }),
{
    if let Err(e) = check_view(b.data.len(), b.rows, b.cols, b.rs, b.cs, Operand::B) {
        return Err(e);
    }
    proof {
        law_extent_is_tight(b.rows, b.cols, b.rs, b.cs);
    }
    match prepack_rhs_unchecked(ctx, b.data, b.layout(), b.rows, b.cols) {
        Ok(p) => {
            assert(p.element() =~= (|j: int, p: int| b.at(p, j)));
            Ok(p)
        },
        Err(e) => Err(e),
    }
}

/// Pack a left operand that is known to fit its slice: its transpose is packed as a right operand.
pub fn prepack_lhs_unchecked<T: GemmScalar>(
    ctx: &Context,
    a: &[T],
    la: Layout,
    m: usize,
    k: usize,
) -> (r: Result<PackedLhs<T>, GemmError>)
    requires
        ctx.kernels.valid(),
        la.fits(m as int, k as int, a@.len() as int),
    ensures
        r is Ok <==> rhs_packs::<T>(*ctx, k, m),
        r matches Ok(p) ==> p.as_rhs().geometry() == rhs_geometry::<T>(*ctx, k, m)
            && p.as_rhs().element() == (|i: int, p: int| a@[la.idx(i, p)]),
        r matches Err(e) ==> e == GemmError::TooLarge,
{
    let lt: Layout = la.transposed();
    proof {
        lemma_transposed(la, m as int, k as int, a@.len() as int);
    }
    match prepack_rhs_unchecked(ctx, a, lt, k, m) {
        Ok(t) => {
            proof {
                assert forall|i: int, p: int| #[trigger] (t.element())(i, p) == a@[la.idx(
                    i,
                    p,
                )] by {
                    lemma_transposed_idx(la, p, i);
                }
                assert(t.element() =~= (|i: int, p: int| a@[la.idx(i, p)]));
            }
            Ok(PackedLhs { t })
        },
        Err(e) => Err(e),
    }
}

/// Pack a left operand for reuse: its transpose is packed as a right operand.
pub fn prepack_lhs<T: GemmScalar>(ctx: &Context, a: MatRef<'_, T>) -> (r: Result<
    PackedLhs<T>,
    GemmError,
>)
    requires
        ctx.kernels.valid(),
    ensures
        r is Ok <==> a.geometry().in_bounds() && rhs_packs::<T>(*ctx, a.cols, a.rows),
        r matches Ok(p) ==> p.as_rhs().geometry() == rhs_geometry::<T>(*ctx, a.cols, a.rows)
            && p.as_rhs().element() == (|i: int, p: int| a.at(i, p)),
        r matches Err(e) ==> e == (if a.geometry().in_bounds() {
            GemmError::TooLarge
        } else {
            a.geometry().error(Operand::A)
        }),
{
    if let Err(e) = check_view(a.data.len(), a.rows, a.cols, a.rs, a.cs, Operand::A) {
        return Err(e);
    }
    proof {
        law_extent_is_tight(a.rows, a.cols, a.rs, a.cs);
    }
    match prepack_lhs_unchecked(ctx, a.data, a.layout(), a.rows, a.cols) {
        Ok(p) => {
            assert(p.as_rhs().element() =~= (|i: int, p: int| a.at(i, p)));
            Ok(p)
        },
        Err(e) => Err(e),
    }
}

/// The geometry of an integer operand. Dot panels are padded in depth, so their depth is not
/// split.
pub open spec fn int_rhs_geometry(ctx: Context, k: usize, n: usize) -> Packing {
    let d = ctx.kernels.byte;
    if k == 0 || n == 0 {
        Packing { k, n, kc: 1, nc: d.nr, nr: d.nr, q: d.depth_multiple }
    } else {
        prepack_geometry(ctx, d.mr, d.nr, 1, k, n, d.depth_multiple, d.depth_multiple > 1)
    }
}

/// No size of a packed integer operand overflows.
pub open spec fn int_rhs_packs(ctx: Context, k: usize, n: usize) -> bool {
    let d = ctx.kernels.byte;
    k == 0 || n == 0 || prepack_fits(ctx, d.mr, d.nr, 1, k, n, d.depth_multiple)
}

/// Pack an integer right operand that is known to fit its slice.
pub fn prepack_rhs_i8_unchecked(
    ctx: &Context,
    b: &[i8],
    lb: Layout,
    k: usize,
    n: usize,
) -> (r: Result<PackedRhs<i8>, GemmError>)
    requires
        ctx.kernels.valid(),
        lb.fits(k as int, n as int, b@.len() as int),
    ensures
        r is Ok <==> int_rhs_packs(*ctx, k, n),
        r matches Ok(p) ==> p.geometry() == int_rhs_geometry(*ctx, k, n) && p.element() == (
        |j: int, p: int| b@[lb.idx(p, j)]),
        r matches Err(e) ==> e == GemmError::TooLarge,
{
    let (mr, nr): (usize, usize) = i8_rhs_tile(ctx);
    let q: usize = i8_rhs_depth_multiple(ctx);
    prepack(ctx, b, lb, k, n, mr, nr, 1, q, q > 1, 0)
}

/// Pack an integer right operand for reuse.
pub fn prepack_rhs_i8(ctx: &Context, b: MatRef<'_, i8>) -> (r: Result<PackedRhs<i8>, GemmError>)
    requires
        ctx.kernels.valid(),
    ensures
        r is Ok <==> b.geometry().in_bounds() && int_rhs_packs(*ctx, b.rows, b.cols),
        r matches Ok(p) ==> p.geometry() == int_rhs_geometry(*ctx, b.rows, b.cols) && p.element()
            == (|j: int, p: int| b.at(p, j)),
        r matches Err(e) ==> e == (if b.geometry().in_bounds() {
            GemmError::TooLarge
        } else {
            b.geometry().error(Operand::B)
        }),
{
    if let Err(e) = check_view(b.data.len(), b.rows, b.cols, b.rs, b.cs, Operand::B) {
        return Err(e);
    }
    proof {
        law_extent_is_tight(b.rows, b.cols, b.rs, b.cs);
    }
    match prepack_rhs_i8_unchecked(ctx, b.data, b.layout(), b.rows, b.cols) {
        Ok(p) => {
            assert(p.element() =~= (|j: int, p: int| b.at(p, j)));
            Ok(p)
        },
        Err(e) => Err(e),
    }
}

/// The decisions about a product with a prepacked right operand.
pub open spec fn packed_request<F: KernelFamily>(
    mr: usize,
    m: usize,
    la: Layout,
    g: Packing,
) -> Request {
    request_spec::<F>(mr, g.nr, g.q, m, g.k, g.n, la, Some((g.kc, g.nc)))
}

/// The arithmetic of a product with a prepacked right operand, split into the slices that it
/// was packed in.
pub open spec fn packed_contraction<F: KernelFamily>(
    a: Seq<F::Lhs>,
    la: Layout,
    packed: PackedRhs<F::Rhs>,
    alpha: F::Acc,
    beta: F::Acc,
) -> Contraction<F> {
    Contraction {
        k: packed.geometry().k as int,
        kc: packed.geometry().kc as int,
        a: |i: int, p: int| a[la.idx(i, p)],
        b: packed.element(),
        alpha,
        beta,
    }
}

/// Run the driver over a prepacked right operand.
pub fn run_packed_rhs_epilogue<F: KernelFamily, E: Epilogue<F>>(
    ctx: &Context,
    par: Parallelism,
    mr: usize,
    m: usize,
    alpha: F::Acc,
    a: &[F::Lhs],
    la: Layout,
    packed: &PackedRhs<F::Rhs>,
    beta: F::Acc,
    c: &mut [F::Out],
    lc: Layout,
    epi: &E,
) -> (r: Result<(), GemmError>)
    requires
        0 < m,
        0 < packed.geometry().k,
        0 < packed.geometry().n,
        0 < mr,
        la.fits(m as int, packed.geometry().k as int, a@.len() as int),
        lc.fits(m as int, packed.geometry().n as int, old(c)@.len() as int),
        lc.distinct(m as int, packed.geometry().n as int),
        forall|v: F::Acc, i: int, j: int|
            0 <= i < m && 0 <= j < packed.geometry().n ==> #[trigger] epi.accepts(v, i, j),
    ensures
        packed.geometry().kc > 0,
        r is Ok <==> packed_request::<F>(mr, m, la, packed.geometry()).fits(*ctx, par),
        r is Ok ==> written(
            old(c)@,
            final(c)@,
            lc,
            m as int,
            packed.geometry().n as int,
            |i: int, j: int, x: F::Out, y: F::Out|
                epi.stores(
                    packed_contraction::<F>(a@, la, *packed, alpha, beta).total(i, j, x),
                    i,
                    j,
                    y,
                ),
        ),
        r matches Err(e) ==> e == GemmError::TooLarge && final(c)@ == old(c)@,
{
    proof {
        use_type_invariant(packed);
    }
    let ghost con = packed_contraction::<F>(a@, la, *packed, alpha, beta);
    let ghost prod = Product::<F, E> {
        m: m as int,
        n: packed.g.n as int,
        k: packed.g.k as int,
        kc: packed.g.kc as int,
        a: con.a,
        b: con.b,
        alpha,
        beta,
        lc,
        c0: c@,
        epi: *epi,
    };
    let ghost c0 = c@;
    assert(prod.con() == con);
    let r = run_inner::<F, E>(
        ctx,
        par,
        mr,
        packed.g.nr,
        packed.g.q,
        m,
        packed.g.k,
        packed.g.n,
        alpha,
        a,
        la,
        Rhs::Prepacked { buf: packed.buf.as_slice(), g: packed.g },
        beta,
        c,
        lc,
        epi,
        Ghost(prod),
    );
    proof {
        if r is Ok {
            lemma_done_written(prod, c@);
        }
    }
    r
}

} // verus!
