//! The decisions a product makes before it runs: block sizes, number of workers, what to pack.
//!
//! Only `kc` shapes the result (it fixes how the depth is split into slices). Everything else
//! moves memory and work about.

use vstd::arithmetic::div_mod::*;
use vstd::prelude::*;

use crate::arith::{
    abs_int, checked_next_multiple_of, div_ceil, div_up, lemma_div_up, max_int, max_usize,
    min_int, min_usize, round_up, saturate, saturating_mul, unsigned_abs,
};
use crate::cache::{
    last_level, lhs_pack_span_bytes, lhs_pack_stride_bytes, or_auto, prefetch_ws_bytes, Blocking,
    Shape,
};
use crate::parallel::{Context, Parallelism};

verus! {

/// Jobs that every worker of a wide call should have.
pub const PAR_JOBS_PER_WORKER: usize = 8;

/// Workers from which the left operand is packed once for all, whatever the size.
pub const SHARED_A_MIN_THREADS: usize = 16;

/// What the decisions are made from.
#[derive(Clone, Copy, Debug)]
pub struct Request {
    /// Microtile rows and columns.
    pub mr: usize,
    pub nr: usize,
    /// Element sizes in bytes.
    pub lhs_bytes: usize,
    pub rhs_bytes: usize,
    pub out_bytes: usize,
    /// Whether the output holds an accumulator exactly.
    pub out_is_acc: bool,
    /// Packed depths come in multiples of this.
    pub depth_multiple: usize,
    pub force_pack_lhs: bool,
    pub force_pack_rhs: bool,
    /// Shape of the product.
    pub m: usize,
    pub k: usize,
    pub n: usize,
    /// Strides of the left operand.
    pub rsa: isize,
    pub csa: isize,
    /// The `(kc, nc)` of a prepacked right operand.
    pub packed: Option<(usize, usize)>,
}

/// The decisions.
#[derive(Clone, Copy, Debug)]
pub struct Plan {
    /// Rows per row block, a multiple of `mr`.
    pub mc: usize,
    /// Depth per slice.
    pub kc: usize,
    /// Columns per column block, a multiple of `nr`.
    pub nc: usize,
    /// Workers.
    pub n_threads: usize,
    /// Pack the left operand although it could be read in place.
    pub want_pack_lhs: bool,
    /// Pack every row block once, ahead of the tiles that read it.
    pub shared_a: bool,
    /// Pack the right operand.
    pub pack_b: bool,
    /// The working set is past the last cache level, so output tiles are worth prefetching.
    pub prefetch_c: bool,
    /// Some row block is packed.
    pub need_a_pack: bool,
}

impl Request {
    /// Sizes that make a product: nothing is zero.
    pub open spec fn valid(self) -> bool {
        &&& self.mr > 0
        &&& self.nr > 0
        &&& self.depth_multiple > 0
        &&& self.m > 0
        &&& self.k > 0
        &&& self.n > 0
    }

    pub open spec fn shape(self) -> Shape {
        Shape {
            mr: self.mr as int,
            nr: self.nr as int,
            sizeof: max_int(self.lhs_bytes as int, 1),
            m: self.m as int,
            n: self.n as int,
            k: self.k as int,
        }
    }

    /// The cache model's `(mc, kc, nc)`.
    pub open spec fn blocks(self, ctx: Context) -> (int, int, int) {
        ctx.machine.cache.blocking_spec(ctx.tuning, self.shape())
    }

    /// Rows per row block before the worker count is considered.
    pub open spec fn mc_model(self, ctx: Context) -> int {
        max_int(round_up(self.blocks(ctx).0, self.mr as int), self.mr as int)
    }

    /// Depth per slice: that of the prepacked buffer, or the model's, or, where the output
    /// cannot hold a partial sum, the whole depth.
    pub open spec fn kc(self, ctx: Context) -> int {
        match self.packed {
            Some((pkc, _)) => max_int(pkc as int, 1),
            None => max_int(
                if self.out_is_acc {
                    round_up(self.blocks(ctx).1, self.depth_multiple as int)
                } else {
                    self.k as int
                },
                1,
            ),
        }
    }

    /// Columns per column block: those of the prepacked buffer, or the model's.
    pub open spec fn nc(self, ctx: Context) -> int {
        match self.packed {
            Some((_, pnc)) => max_int(round_up(pnc as int, self.nr as int), self.nr as int),
            None => max_int(round_up(self.blocks(ctx).2, self.nr as int), self.nr as int),
        }
    }

    /// Depth of a packed slice.
    pub open spec fn kc_pad(self, ctx: Context) -> int {
        round_up(self.kc(ctx), self.depth_multiple as int)
    }

    /// Column tiles of a full column block.
    pub open spec fn tiles(self, ctx: Context) -> int {
        div_up(self.nc(ctx), self.nr as int)
    }

    pub open spec fn jobs_model(self, ctx: Context) -> int {
        div_up(self.m as int, self.mc_model(ctx)) * self.tiles(ctx)
    }

    /// Multiply-adds of the product, saturated.
    pub open spec fn mnk(self) -> int {
        saturate(saturate(self.m * self.n) * self.k)
    }

    pub open spec fn threads(self, ctx: Context, par: Parallelism) -> int {
        par.resolved(ctx.tuning, ctx.workers, self.mnk(), self.jobs_model(ctx))
    }

    /// Rows per row block: the model's, cut down where that leaves a wide call with too few
    /// jobs per worker.
    pub open spec fn mc(self, ctx: Context, par: Parallelism) -> int {
        let threads = self.threads(ctx, par);
        if threads > 1 && self.jobs_model(ctx) < saturate(threads * PAR_JOBS_PER_WORKER) {
            let blocks = min_int(
                div_up(saturate(threads * PAR_JOBS_PER_WORKER), self.tiles(ctx)),
                div_up(self.m as int, self.mr as int),
            );
            min_int(
                self.mc_model(ctx),
                max_int(
                    round_up(div_up(self.m as int, blocks), self.mr as int),
                    self.mr as int,
                ),
            )
        } else {
            self.mc_model(ctx)
        }
    }

    pub open spec fn jobs(self, ctx: Context, par: Parallelism) -> int {
        div_up(self.m as int, self.mc(ctx, par)) * self.tiles(ctx)
    }

    /// Columns that reuse one packed left panel, if the jobs are spread evenly.
    pub open spec fn reuse_cols(self, ctx: Context, par: Parallelism) -> int {
        min_int(div_up(self.jobs(ctx, par), self.threads(ctx, par)), self.tiles(ctx)) * self.nr
    }

    /// The depth walk of a column-major left operand is too hostile to read in place: its
    /// stride, its span and its reuse all pass their gates.
    pub open spec fn strided_lhs(self, ctx: Context) -> bool {
        let step = saturate(abs_int(self.csa as int) * self.lhs_bytes);
        &&& self.rsa == 1
        &&& step >= or_auto(ctx.tuning.lhs_pack_stride, ctx.machine.page_size as int / 2)
        &&& saturate(step * min_int(self.kc(ctx), self.k as int)) >= or_auto(
            ctx.tuning.lhs_pack_span,
            4194304,
        )
        &&& self.tiles(ctx) >= ctx.tuning.lhs_pack_reuse
    }

    pub open spec fn want_pack_lhs(self, ctx: Context, par: Parallelism) -> bool {
        ||| self.reuse_cols(ctx, par) > ctx.tuning.lhs_pack_threshold
        ||| self.strided_lhs(ctx)
        ||| self.force_pack_lhs
    }

    pub open spec fn shared_a(self, ctx: Context, par: Parallelism) -> bool {
        let threads = self.threads(ctx, par);
        &&& threads > 1
        &&& self.rsa != 1 || self.want_pack_lhs(ctx, par)
        &&& self.mnk() >= ctx.tuning.shared_lhs_mnk || threads >= SHARED_A_MIN_THREADS
    }

    pub open spec fn pack_b(self, ctx: Context) -> bool {
        self.packed is None && (self.m > ctx.tuning.rhs_pack_threshold || self.force_pack_rhs)
    }

    /// Bytes of the two operands and the output together, saturated.
    pub open spec fn working_set(self) -> int {
        saturate(
            saturate(
                saturate(saturate(self.m * self.k) * self.lhs_bytes) + saturate(
                    saturate(self.k * self.n) * self.rhs_bytes,
                ),
            ) + saturate(saturate(self.m * self.n) * self.out_bytes),
        )
    }

    pub open spec fn prefetch_c(self, ctx: Context) -> bool {
        self.working_set() > or_auto(
            ctx.tuning.prefetch_min_bytes,
            last_level(ctx.machine.cache),
        )
    }

    pub open spec fn need_a_pack(self, ctx: Context, par: Parallelism) -> bool {
        self.rsa != 1 || self.m % self.mr != 0 || self.want_pack_lhs(ctx, par)
    }

    /// No size overflows: neither one of the blocking nor that of a pack region. A broadcast
    /// operand can have a depth that no buffer could hold, so the regions are bounded whether
    /// or not they are used.
    pub open spec fn fits(self, ctx: Context, par: Parallelism) -> bool {
        let top = usize::MAX as int;
        &&& ctx.machine.cache.blocking_fits(ctx.tuning, self.shape())
        &&& round_up(self.blocks(ctx).0, self.mr as int) <= top
        &&& self.packed is None && self.out_is_acc ==> round_up(
            self.blocks(ctx).1,
            self.depth_multiple as int,
        ) <= top
        &&& self.nc(ctx) <= top
        &&& self.kc_pad(ctx) <= top
        &&& self.jobs_model(ctx) <= top
        &&& self.mc(ctx, par) * self.kc_pad(ctx) <= top
        &&& self.nc(ctx) * self.kc_pad(ctx) <= top
        &&& self.jobs(ctx, par) <= top
    }
}

/// Whether a row block is packed rather than read in place. Rows that are not contiguous and a
/// block that does not divide into whole register panels force it; otherwise the caller says
/// whether it is worth it.
pub fn do_pack_lhs(rsa: isize, mc_eff: usize, mr: usize, want_pack: bool) -> (r: bool)
    requires
        mr > 0,
    ensures
        r == (rsa != 1 || mc_eff % mr != 0 || want_pack),
{
    rsa != 1 || mc_eff % mr != 0 || want_pack
}

/// Two saturating steps: `a*b*c`.
fn sat3(a: usize, b: usize, c: usize) -> (r: usize)
    ensures
        r == saturate(saturate(a * b) * c),
{
    saturating_mul(saturating_mul(a, b), c)
}

/// `max(round_up(a, b), b)`, or `None` where it overflows.
fn checked_blocks_of(a: usize, b: usize) -> (r: Option<usize>)
    requires
        b > 0,
    ensures
        r is Some <==> round_up(a as int, b as int) <= usize::MAX,
        r matches Some(v) ==> v == max_int(round_up(a as int, b as int), b as int) && v % b == 0
            && v > 0,
{
    proof {
        lemma_div_up(a as int, b as int);
        lemma_mod_self_0(b as int);
    }
    match checked_next_multiple_of(a, b) {
        Some(v) => Some(max_usize(v, b)),
        None => None,
    }
}

/// The depth and the columns of a block, with the padded depth.
fn depth_and_columns(req: &Request, blk: Blocking, Ghost(ctx): Ghost<Context>) -> (r: Option<
    (usize, usize, usize),
>)
    requires
        req.valid(),
        (blk.mc as int, blk.kc as int, blk.nc as int) == req.blocks(ctx),
    ensures
        r is Some <==> (req.packed is None && req.out_is_acc ==> round_up(
            req.blocks(ctx).1,
            req.depth_multiple as int,
        ) <= usize::MAX) && req.nc(ctx) <= usize::MAX && req.kc_pad(ctx) <= usize::MAX,
        r matches Some((kc, nc, kp)) ==> kc == req.kc(ctx) && nc == req.nc(ctx) && kp
            == req.kc_pad(ctx) && kc > 0 && nc > 0 && nc % req.nr == 0,
{
    let kc: usize = match req.packed {
        Some((pkc, _)) => max_usize(pkc, 1),
        None => if req.out_is_acc {
            match checked_next_multiple_of(blk.kc, req.depth_multiple) {
                Some(v) => {
                    proof {
                        lemma_div_up(blk.kc as int, req.depth_multiple as int);
                    }
                    max_usize(v, 1)
                },
                None => return None,
            }
        } else {
            max_usize(req.k, 1)
        },
    };
    let cols: usize = match req.packed {
        Some((_, pnc)) => pnc,
        None => blk.nc,
    };
    proof {
        lemma_div_up(cols as int, req.nr as int);
        lemma_div_up(kc as int, req.depth_multiple as int);
    }
    let nc: usize = match checked_blocks_of(cols, req.nr) {
        Some(v) => v,
        None => return None,
    };
    let kp: usize = match checked_next_multiple_of(kc, req.depth_multiple) {
        Some(v) => v,
        None => return None,
    };
    Some((kc, nc, kp))
}

/// Rows per row block for a given number of workers.
fn rows_for_workers(
    req: &Request,
    mc_model: usize,
    tiles: usize,
    jobs_model: usize,
    n_threads: usize,
    Ghost(ctx): Ghost<Context>,
    Ghost(par): Ghost<Parallelism>,
) -> (mc: usize)
    requires
        req.valid(),
        mc_model == req.mc_model(ctx),
        mc_model > 0,
        mc_model % req.mr == 0,
        tiles == req.tiles(ctx),
        tiles > 0,
        jobs_model == req.jobs_model(ctx),
        n_threads == req.threads(ctx, par),
    ensures
        mc == req.mc(ctx, par),
        0 < mc,
        mc % req.mr == 0,
{
    let target: usize = saturating_mul(n_threads, PAR_JOBS_PER_WORKER);
    if n_threads > 1 && jobs_model < target {
        proof {
            lemma_div_up(target as int, tiles as int);
            lemma_div_up(req.m as int, req.mr as int);
        }
        let blocks: usize = min_usize(div_ceil(target, tiles), div_ceil(req.m, req.mr));
        let even: usize = div_ceil(req.m, blocks);
        proof {
            lemma_div_up(even as int, req.mr as int);
            lemma_mod_self_0(req.mr as int);
        }
        match checked_next_multiple_of(even, req.mr) {
            Some(v) => min_usize(mc_model, max_usize(v, req.mr)),
            None => mc_model,
        }
    } else {
        mc_model
    }
}

/// Make the decisions, or give `None` where a size overflows.
pub fn plan(ctx: &Context, par: Parallelism, req: &Request) -> (r: Option<Plan>)
    requires
        req.valid(),
    ensures
        r is Some <==> req.fits(*ctx, par),
        r matches Some(p) ==> {
            &&& p.mc == req.mc(*ctx, par)
            &&& p.kc == req.kc(*ctx)
            &&& p.nc == req.nc(*ctx)
            &&& p.n_threads == req.threads(*ctx, par)
            &&& p.want_pack_lhs == req.want_pack_lhs(*ctx, par)
            &&& p.shared_a == req.shared_a(*ctx, par)
            &&& p.pack_b == req.pack_b(*ctx)
            &&& p.prefetch_c == req.prefetch_c(*ctx)
            &&& p.need_a_pack == req.need_a_pack(*ctx, par)
            &&& p.mc > 0 && p.mc % req.mr == 0
            &&& p.nc > 0 && p.nc % req.nr == 0
            &&& p.kc > 0
        },
{
    let tun = &ctx.tuning;
    let blk: Blocking = match ctx.machine.cache.checked_blocking(
        tun,
        req.mr,
        req.nr,
        max_usize(req.lhs_bytes, 1),
        req.m,
        req.n,
        req.k,
    ) {
        Some(b) => b,
        None => return None,
    };
    proof {
        lemma_div_up(blk.mc as int, req.mr as int);
    }
    let mc_model: usize = match checked_blocks_of(blk.mc, req.mr) {
        Some(v) => v,
        None => return None,
    };
    let (kc, nc, kp): (usize, usize, usize) = match depth_and_columns(req, blk, Ghost(*ctx)) {
        Some(v) => v,
        None => return None,
    };
    proof {
        lemma_div_up(nc as int, req.nr as int);
    }
    let tiles: usize = div_ceil(nc, req.nr);
    let jobs_model: usize = match div_ceil(req.m, mc_model).checked_mul(tiles) {
        Some(v) => v,
        None => return None,
    };
    let mnk: usize = sat3(req.m, req.n, req.k);
    let n_threads: usize = par.resolve(tun, ctx.workers, mnk, jobs_model);
    let mc: usize = rows_for_workers(
        req,
        mc_model,
        tiles,
        jobs_model,
        n_threads,
        Ghost(*ctx),
        Ghost(par),
    );
    if mc.checked_mul(kp).is_none() || nc.checked_mul(kp).is_none() {
        return None;
    }
    let jobs: usize = match div_ceil(req.m, mc).checked_mul(tiles) {
        Some(v) => v,
        None => return None,
    };
    let reuse_tiles: usize = min_usize(div_ceil(jobs, n_threads), tiles);
    proof {
        lemma_fundamental_div_mod(nc as int, req.nr as int);
        assert(tiles * req.nr == nc) by (nonlinear_arith)
            requires
                nc == req.nr * tiles,
        ;
        assert(reuse_tiles * req.nr <= nc) by (nonlinear_arith)
            requires
                reuse_tiles <= tiles,
                tiles * req.nr == nc,
                req.nr >= 0,
        ;
    }
    let reuse_cols: usize = reuse_tiles * req.nr;
    let step: usize = saturating_mul(unsigned_abs(req.csa), req.lhs_bytes);
    let strided_lhs: bool = req.rsa == 1 && step >= lhs_pack_stride_bytes(tun, &ctx.machine)
        && saturating_mul(step, min_usize(kc, req.k)) >= lhs_pack_span_bytes(tun) && tiles
        >= tun.lhs_pack_reuse;
    let want_pack_lhs: bool = reuse_cols > tun.lhs_pack_threshold || strided_lhs
        || req.force_pack_lhs;
    let shared_a: bool = n_threads > 1 && (req.rsa != 1 || want_pack_lhs) && (mnk
        >= tun.shared_lhs_mnk || n_threads >= SHARED_A_MIN_THREADS);
    let pack_b: bool = req.packed.is_none() && (req.m > tun.rhs_pack_threshold
        || req.force_pack_rhs);
    let ws_bytes: usize = sat3(req.m, req.k, req.lhs_bytes).saturating_add(
        sat3(req.k, req.n, req.rhs_bytes),
    ).saturating_add(sat3(req.m, req.n, req.out_bytes));
    let prefetch_c: bool = ws_bytes > prefetch_ws_bytes(tun, &ctx.machine.cache);
    let need_a_pack: bool = req.rsa != 1 || req.m % req.mr != 0 || want_pack_lhs;
    Some(
        Plan {
            mc,
            kc,
            nc,
            n_threads,
            want_pack_lhs,
            shared_a,
            pack_b,
            prefetch_c,
            need_a_pack,
        },
    )
}

} // verus!
