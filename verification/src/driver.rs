//! The generic driver: one loop nest for every kernel family and every epilogue.
//!
//! Columns are walked in blocks of `nc`, depth in slices of `kc`, rows in blocks of `mc`, and
//! each `(row block, column tile)` is one job. `beta` applies to the first depth slice only;
//! later slices add to what is stored, and the epilogue is applied on the last one.

use vstd::arithmetic::div_mod::*;
use vstd::arithmetic::mul::*;
use vstd::prelude::*;

use crate::arith::{
    div_up, lemma_div_up, lemma_div_up_least, min_int, min_usize, next_multiple_of, round_up,
};
use crate::error::GemmError;
use crate::kernel::{
    alpha_status, beta_status, AlphaStatus, BetaStatus, Epilogue, Identity, KernelFamily,
};
use crate::layout::{lemma_transposed, lemma_transposed_idx, Layout};
use crate::packed::{lemma_packing_start, Packing};
use crate::panel::{
    lemma_strip_extend, lemma_strip_pad_extend, lemma_strip_strided, pack_strip, Strip,
};
use crate::parallel::{Context, Parallelism};
use crate::plan::{do_pack_lhs, plan, Plan, Request};
use crate::product::{advanced, lemma_state_done, lemma_state_ext, microtile, Product};
use crate::scalar::Scalar;

verus! {

/// What a depth slice hands to its tiles.
pub struct SliceParams<A> {
    pub kc_eff: usize,
    pub alpha: A,
    pub beta: A,
    pub ash: AlphaStatus,
    pub bst: BetaStatus,
    pub first: bool,
    pub last: bool,
}

/// The parameters belong to slice `t` of the product.
pub open spec fn slice_of<F: KernelFamily, E: Epilogue<F>>(
    prod: Product<F, E>,
    t: int,
    sp: SliceParams<F::Acc>,
) -> bool {
    &&& 0 <= t < prod.slices()
    &&& prod.alpha == sp.alpha
    &&& sp.kc_eff == min_int((t + 1) * prod.kc, prod.k) - t * prod.kc
    &&& sp.first <==> t == 0
    &&& sp.last <==> t == prod.slices() - 1
    &&& sp.ash is One <==> sp.alpha.is_one_spec()
    &&& t == 0 ==> sp.beta == prod.beta && (sp.bst is Zero <==> sp.beta.is_zero_spec()) && (
    sp.bst is One <==> !sp.beta.is_zero_spec() && sp.beta.is_one_spec())
    &&& t > 0 ==> sp.bst is One
}

/// One job: every `mr`-row tile of a row block against one column tile.
fn run_job<F: KernelFamily, E: Epilogue<F>>(
    abuf: &[F::Lhs],
    astrip: Strip,
    bbuf: &[F::Rhs],
    bstrip: Strip,
    jt: usize,
    c: &mut [F::Out],
    lc: Layout,
    ic: usize,
    mc_eff: usize,
    mr: usize,
    col: usize,
    nr_eff: usize,
    sp: &SliceParams<F::Acc>,
    epi: &E,
    Ghost(prod): Ghost<Product<F, E>>,
    Ghost(stage): Ghost<spec_fn(int, int) -> int>,
    Ghost(t): Ghost<int>,
    Ghost(jc): Ghost<int>,
    Ghost(nc_eff): Ghost<int>,
)
    requires
        prod.ready(),
        prod.state(old(c)@, stage),
        prod.lc == lc,
        prod.epi == *epi,
        slice_of(prod, t, *sp),
        ic + mc_eff <= prod.m,
        mr > 0,
        astrip.width() == mr,
        bstrip.width() > 0,
        0 <= jt < div_up(nc_eff, bstrip.width()),
        col == jc + jt * bstrip.width(),
        nr_eff == min_int(bstrip.width(), nc_eff - jt * bstrip.width()),
        col + nr_eff <= prod.n,
        astrip.holds(abuf@, prod.a, ic as int, t * prod.kc, mc_eff as int, sp.kc_eff as int),
        bstrip.holds(bbuf@, prod.b, jc, t * prod.kc, nc_eff, sp.kc_eff as int),
        forall|i: int, j: int|
            ic <= i < ic + mc_eff && col <= j < col + nr_eff ==> #[trigger] stage(i, j) == t,
    ensures
        prod.state(
            final(c)@,
            advanced(stage, ic as int, ic + mc_eff, col as int, col + nr_eff, t + 1),
        ),
{
    let ghost kc_eff = sp.kc_eff as int;
    let ghost pc = t * prod.kc;
    proof {
        let _ = bstrip.panel_spec(jt as int);
        lemma_state_ext(
            prod,
            c@,
            stage,
            advanced(stage, ic as int, ic as int, col as int, col + nr_eff, t + 1),
        );
    }
    let bpan = bstrip.panel(jt, Ghost(nc_eff), Ghost(kc_eff));
    let mut ir: usize = 0;
    let mut r: usize = 0;
    while ir < mc_eff
        invariant
            ir <= mc_eff,
            ir == min_int(r * mr, mc_eff as int),
            kc_eff == sp.kc_eff,
            pc == t * prod.kc,
            prod.ready(),
            prod.lc == lc,
            prod.epi == *epi,
            slice_of(prod, t, *sp),
            ic + mc_eff <= prod.m,
            mr > 0,
            astrip.width() == mr,
            col + nr_eff <= prod.n,
            astrip.holds(abuf@, prod.a, ic as int, pc, mc_eff as int, kc_eff),
            bpan.holds(bbuf@, prod.b, col as int, pc, nr_eff as int, kc_eff),
            bpan is Strided ==> bpan->x0 + nr_eff <= usize::MAX && bpan->p0 + kc_eff
                <= usize::MAX,
            forall|i: int, j: int|
                ic <= i < ic + mc_eff && col <= j < col + nr_eff ==> #[trigger] stage(i, j) == t,
            prod.state(
                c@,
                advanced(stage, ic as int, ic + ir, col as int, col + nr_eff, t + 1),
            ),
        decreases mc_eff - ir,
    {
        let mr_eff: usize = min_usize(mr, mc_eff - ir);
        let ghost here = advanced(stage, ic as int, ic + ir, col as int, col + nr_eff, t + 1);
        proof {
            lemma_div_up(mc_eff as int, mr as int);
            let blocks = div_up(mc_eff as int, mr as int);
            assert(r < blocks) by (nonlinear_arith)
                requires
                    r * mr < mc_eff,
                    mc_eff <= blocks * mr,
                    mr > 0,
            ;
            let _ = astrip.panel_spec(r as int);
            assert((r + 1) * mr == r * mr + mr) by (nonlinear_arith);
        }
        let apan = astrip.panel(r, Ghost(mc_eff as int), Ghost(kc_eff));
        microtile::<F, E>(
            abuf,
            apan,
            bbuf,
            bpan,
            c,
            lc,
            ic + ir,
            col,
            mr_eff,
            nr_eff,
            sp.kc_eff,
            sp.alpha,
            sp.beta,
            sp.ash,
            sp.bst,
            sp.first,
            sp.last,
            epi,
            Ghost(prod),
            Ghost(here),
            Ghost(t),
        );
        proof {
            lemma_state_ext(
                prod,
                c@,
                advanced(here, ic + ir, ic + ir + mr_eff, col as int, col + nr_eff, t + 1),
                advanced(stage, ic as int, ic + ir + mr_eff, col as int, col + nr_eff, t + 1),
            );
        }
        ir = ir + mr_eff;
        r = r + 1;
    }
}

/// One row block: every column tile of the column block, left to right.
fn run_row_block<F: KernelFamily, E: Epilogue<F>>(
    abuf: &[F::Lhs],
    astrip: Strip,
    bbuf: &[F::Rhs],
    bstrip: Strip,
    c: &mut [F::Out],
    lc: Layout,
    ic: usize,
    mc_eff: usize,
    mr: usize,
    jc: usize,
    nc_eff: usize,
    nr: usize,
    sp: &SliceParams<F::Acc>,
    epi: &E,
    Ghost(prod): Ghost<Product<F, E>>,
    Ghost(stage): Ghost<spec_fn(int, int) -> int>,
    Ghost(t): Ghost<int>,
)
    requires
        prod.ready(),
        prod.state(old(c)@, stage),
        prod.lc == lc,
        prod.epi == *epi,
        slice_of(prod, t, *sp),
        ic + mc_eff <= prod.m,
        jc + nc_eff <= prod.n,
        mr > 0,
        nr > 0,
        astrip.width() == mr,
        bstrip.width() == nr,
        astrip.holds(abuf@, prod.a, ic as int, t * prod.kc, mc_eff as int, sp.kc_eff as int),
        bstrip.holds(bbuf@, prod.b, jc as int, t * prod.kc, nc_eff as int, sp.kc_eff as int),
        forall|i: int, j: int|
            ic <= i < ic + mc_eff && jc <= j < jc + nc_eff ==> #[trigger] stage(i, j) == t,
    ensures
        prod.state(
            final(c)@,
            advanced(stage, ic as int, ic + mc_eff, jc as int, jc + nc_eff, t + 1),
        ),
{
    let ghost pc = t * prod.kc;
    proof {
        lemma_state_ext(
            prod,
            c@,
            stage,
            advanced(stage, ic as int, ic + mc_eff, jc as int, jc as int, t + 1),
        );
    }
    let mut jr: usize = 0;
    let mut jt: usize = 0;
    while jr < nc_eff
        invariant
            jr <= nc_eff,
            jr == min_int(jt * nr, nc_eff as int),
            pc == t * prod.kc,
            prod.ready(),
            prod.lc == lc,
            prod.epi == *epi,
            slice_of(prod, t, *sp),
            ic + mc_eff <= prod.m,
            jc + nc_eff <= prod.n,
            mr > 0,
            nr > 0,
            astrip.width() == mr,
            bstrip.width() == nr,
            astrip.holds(abuf@, prod.a, ic as int, pc, mc_eff as int, sp.kc_eff as int),
            bstrip.holds(bbuf@, prod.b, jc as int, pc, nc_eff as int, sp.kc_eff as int),
            forall|i: int, j: int|
                ic <= i < ic + mc_eff && jc <= j < jc + nc_eff ==> #[trigger] stage(i, j) == t,
            prod.state(
                c@,
                advanced(stage, ic as int, ic + mc_eff, jc as int, jc + jr, t + 1),
            ),
        decreases nc_eff - jr,
    {
        let nr_eff: usize = min_usize(nr, nc_eff - jr);
        let ghost here = advanced(stage, ic as int, ic + mc_eff, jc as int, jc + jr, t + 1);
        proof {
            lemma_div_up(nc_eff as int, nr as int);
            let tiles = div_up(nc_eff as int, nr as int);
            assert(jt < tiles) by (nonlinear_arith)
                requires
                    jt * nr < nc_eff,
                    nc_eff <= tiles * nr,
                    nr > 0,
            ;
            assert((jt + 1) * nr == jt * nr + nr) by (nonlinear_arith);
        }
        run_job::<F, E>(
            abuf,
            astrip,
            bbuf,
            bstrip,
            jt,
            c,
            lc,
            ic,
            mc_eff,
            mr,
            jc + jr,
            nr_eff,
            sp,
            epi,
            Ghost(prod),
            Ghost(here),
            Ghost(t),
            Ghost(jc as int),
            Ghost(nc_eff as int),
        );
        proof {
            lemma_state_ext(
                prod,
                c@,
                advanced(here, ic as int, ic + mc_eff, jc + jr, jc + jr + nr_eff, t + 1),
                advanced(stage, ic as int, ic + mc_eff, jc as int, jc + jr + nr_eff, t + 1),
            );
        }
        jr = jr + nr_eff;
        jt = jt + 1;
    }
}

/// The progress of a column block in the middle of the walk: columns before `jc` are finished,
/// those of the block have gone through `t` slices, and the rest has not been touched.
pub open spec fn walked(slices: int, jc: int, je: int, t: int) -> spec_fn(int, int) -> int {
    |i: int, j: int|
        if j < jc {
            slices
        } else if j < je {
            t
        } else {
            0
        }
}

/// Where the row blocks of a depth slice come from: a region that holds them all, or the
/// source, block by block.
struct LhsBlocks<T> {
    region: Vec<T>,
    strips: Vec<Strip>,
}

/// Pack every row block of a depth slice once, ahead of the tiles that read it.
fn pack_all_rows<F: KernelFamily, E: Epilogue<F>>(
    a: &[F::Lhs],
    la: Layout,
    m: usize,
    mc: usize,
    mr: usize,
    pc: usize,
    kc_eff: usize,
    q: usize,
    Ghost(prod): Ghost<Product<F, E>>,
) -> (r: LhsBlocks<F::Lhs>)
    requires
        m == prod.m,
        m > 0,
        mc > 0,
        mr > 0,
        mc % mr == 0,
        q > 0,
        kc_eff > 0,
        pc + kc_eff <= prod.k <= usize::MAX,
        mc * round_up(kc_eff as int, q as int) <= usize::MAX,
        la.fits(prod.m, prod.k, a@.len() as int),
        forall|i: int, p: int|
            0 <= i < prod.m && 0 <= p < prod.k ==> a@[#[trigger] la.idx(i, p)] == (prod.a)(i, p),
    ensures
        r.strips@.len() == div_up(m as int, mc as int),
        forall|b: int|
            0 <= b < r.strips@.len() ==> (#[trigger] r.strips@[b]).width() == mr
                && r.strips@[b].holds(
                r.region@,
                prod.a,
                b * mc,
                pc as int,
                min_int(mc as int, m - b * mc),
                kc_eff as int,
            ) && r.strips@[b].padded(
                r.region@,
                F::lhs_pad_spec(),
                min_int(mc as int, m - b * mc),
                kc_eff as int,
            ),
{
    let mut region: Vec<F::Lhs> = Vec::new();
    let mut strips: Vec<Strip> = Vec::new();
    let pad: F::Lhs = F::lhs_pad();
    let mut ic: usize = 0;
    proof {
        lemma_div_up(m as int, mc as int);
        assert(strips@.len() * mc == 0) by (nonlinear_arith)
            requires
                strips@.len() == 0,
        ;
    }
    while ic < m
        invariant
            ic <= m,
            ic == min_int(strips@.len() * mc, m as int),
            m == prod.m,
            mc > 0,
            mr > 0,
            mc % mr == 0,
            q > 0,
            kc_eff > 0,
            pc + kc_eff <= prod.k <= usize::MAX,
            mc * round_up(kc_eff as int, q as int) <= usize::MAX,
            la.fits(prod.m, prod.k, a@.len() as int),
            forall|i: int, p: int|
                0 <= i < prod.m && 0 <= p < prod.k ==> a@[#[trigger] la.idx(i, p)] == (prod.a)(
                    i,
                    p,
                ),
            strips@.len() <= div_up(m as int, mc as int),
            forall|b: int|
                0 <= b < strips@.len() ==> (#[trigger] strips@[b]).width() == mr
                    && strips@[b].holds(
                    region@,
                    prod.a,
                    b * mc,
                    pc as int,
                    min_int(mc as int, m - b * mc),
                    kc_eff as int,
                ) && strips@[b].padded(
                    region@,
                    pad,
                    min_int(mc as int, m - b * mc),
                    kc_eff as int,
                ),
        decreases m - ic,
    {
        let mc_eff: usize = min_usize(mc, m - ic);
        let ghost nb = strips@.len() as int;
        let ghost before = region@;
        let ghost had = strips@;
        proof {
            lemma_div_up(m as int, mc as int);
            let d = div_up(m as int, mc as int);
            assert(nb < d) by (nonlinear_arith)
                requires
                    nb * mc < m,
                    m <= d * mc,
                    mc > 0,
            ;
            assert((nb + 1) * mc == nb * mc + mc) by (nonlinear_arith);
            lemma_block_pads(mc_eff as int, mc as int, mr as int, kc_eff as int, q as int);
        }
        let strip = pack_strip(
            &mut region,
            a,
            la,
            ic,
            pc,
            mc_eff,
            kc_eff,
            mr,
            q,
            pad,
            Ghost(prod.a),
        );
        strips.push(strip);
        proof {
            assert forall|b: int| 0 <= b < strips@.len() implies (#[trigger] strips@[b]).width()
                == mr && strips@[b].holds(
                region@,
                prod.a,
                b * mc,
                pc as int,
                min_int(mc as int, m - b * mc),
                kc_eff as int,
            ) && strips@[b].padded(
                region@,
                pad,
                min_int(mc as int, m - b * mc),
                kc_eff as int,
            ) by {
                if b < nb {
                    assert(had[b] == strips@[b]);
                    lemma_strip_extend(
                        strips@[b],
                        before,
                        region@,
                        prod.a,
                        b * mc,
                        pc as int,
                        min_int(mc as int, m - b * mc),
                        kc_eff as int,
                    );
                    lemma_strip_pad_extend(
                        strips@[b],
                        before,
                        region@,
                        pad,
                        min_int(mc as int, m - b * mc),
                        kc_eff as int,
                    );
                }
            }
        }
        ic = ic + mc_eff;
    }
    proof {
        lemma_div_up(m as int, mc as int);
        let d = div_up(m as int, mc as int);
        let nb = strips@.len() as int;
        assert(nb >= d) by (nonlinear_arith)
            requires
                nb * mc >= m,
                (d - 1) * mc < m,
                mc > 0,
        ;
    }
    LhsBlocks { region, strips }
}

/// A block of `eff <= block` lanes packs into no more than the full block does.
proof fn lemma_block_pads(eff: int, block: int, width: int, kc: int, q: int)
    requires
        0 < eff <= block,
        width > 0,
        block % width == 0,
        kc > 0,
        q > 0,
    ensures
        round_up(eff, width) <= block,
        0 <= round_up(eff, width) * round_up(kc, q) <= block * round_up(kc, q),
{
    lemma_div_up(eff, width);
    lemma_div_up(kc, q);
    lemma_fundamental_div_mod(block, width);
    let n = block / width;
    assert(n * width == block) by (nonlinear_arith)
        requires
            block == width * n,
    ;
    lemma_div_up_least(eff, width, n);
    let e = round_up(eff, width);
    let kp = round_up(kc, q);
    assert(0 <= e * kp <= block * kp) by (nonlinear_arith)
        requires
            0 <= e <= block,
            kp >= 0,
    ;
}

/// One depth slice of one column block: every row block against it.
fn run_slice<F: KernelFamily, E: Epilogue<F>>(
    a: &[F::Lhs],
    la: Layout,
    bbuf: &[F::Rhs],
    bstrip: Strip,
    c: &mut [F::Out],
    lc: Layout,
    m: usize,
    mc: usize,
    mr: usize,
    jc: usize,
    nc_eff: usize,
    nr: usize,
    pc: usize,
    q: usize,
    shared_a: bool,
    want_pack_lhs: bool,
    sp: &SliceParams<F::Acc>,
    epi: &E,
    Ghost(prod): Ghost<Product<F, E>>,
    Ghost(t): Ghost<int>,
)
    requires
        prod.ready(),
        prod.state(old(c)@, walked(prod.slices(), jc as int, jc + nc_eff, t)),
        prod.lc == lc,
        prod.epi == *epi,
        slice_of(prod, t, *sp),
        m == prod.m,
        pc == t * prod.kc,
        sp.kc_eff > 0,
        pc + sp.kc_eff <= prod.k,
        jc + nc_eff <= prod.n,
        mc > 0,
        mr > 0,
        mc % mr == 0,
        nr > 0,
        q > 0,
        mc * round_up(sp.kc_eff as int, q as int) <= usize::MAX,
        bstrip.width() == nr,
        la.fits(prod.m, prod.k, a@.len() as int),
        forall|i: int, p: int|
            0 <= i < prod.m && 0 <= p < prod.k ==> a@[#[trigger] la.idx(i, p)] == (prod.a)(i, p),
        bstrip.holds(bbuf@, prod.b, jc as int, pc as int, nc_eff as int, sp.kc_eff as int),
    ensures
        prod.state(final(c)@, walked(prod.slices(), jc as int, jc + nc_eff, t + 1)),
{
    let ghost start = walked(prod.slices(), jc as int, jc + nc_eff, t);
    let pad: F::Lhs = F::lhs_pad();
    let shared: Option<LhsBlocks<F::Lhs>> = if shared_a {
        Some(pack_all_rows::<F, E>(a, la, m, mc, mr, pc, sp.kc_eff, q, Ghost(prod)))
    } else {
        None
    };
    let mut private: Vec<F::Lhs> = Vec::new();
    let mut ic: usize = 0;
    let mut ib: usize = 0;
    proof {
        lemma_state_ext(
            prod,
            c@,
            start,
            advanced(start, 0, 0, jc as int, jc + nc_eff, t + 1),
        );
    }
    while ic < m
        invariant
            ic <= m,
            ic == min_int(ib * mc, m as int),
            start == walked(prod.slices(), jc as int, jc + nc_eff, t),
            prod.ready(),
            prod.lc == lc,
            prod.epi == *epi,
            slice_of(prod, t, *sp),
            m == prod.m,
            pc == t * prod.kc,
            sp.kc_eff > 0,
            pc + sp.kc_eff <= prod.k,
            jc + nc_eff <= prod.n,
            mc > 0,
            mr > 0,
            mc % mr == 0,
            nr > 0,
            q > 0,
            mc * round_up(sp.kc_eff as int, q as int) <= usize::MAX,
            bstrip.width() == nr,
            la.fits(prod.m, prod.k, a@.len() as int),
            forall|i: int, p: int|
                0 <= i < prod.m && 0 <= p < prod.k ==> a@[#[trigger] la.idx(i, p)] == (prod.a)(
                    i,
                    p,
                ),
            bstrip.holds(bbuf@, prod.b, jc as int, pc as int, nc_eff as int, sp.kc_eff as int),
            shared matches Some(blocks) ==> {
                &&& blocks.strips@.len() == div_up(m as int, mc as int)
                &&& forall|b: int|
                    0 <= b < blocks.strips@.len() ==> (#[trigger] blocks.strips@[b]).width() == mr
                        && blocks.strips@[b].holds(
                        blocks.region@,
                        prod.a,
                        b * mc,
                        pc as int,
                        min_int(mc as int, m - b * mc),
                        sp.kc_eff as int,
                    )
            },
            prod.state(c@, advanced(start, 0, ic as int, jc as int, jc + nc_eff, t + 1)),
        decreases m - ic,
    {
        let mc_eff: usize = min_usize(mc, m - ic);
        let ghost here = advanced(start, 0, ic as int, jc as int, jc + nc_eff, t + 1);
        proof {
            lemma_div_up(m as int, mc as int);
            let d = div_up(m as int, mc as int);
            assert(ib < d) by (nonlinear_arith)
                requires
                    ib * mc < m,
                    m <= d * mc,
                    mc > 0,
            ;
            assert((ib + 1) * mc == ib * mc + mc) by (nonlinear_arith);
            lemma_block_pads(mc_eff as int, mc as int, mr as int, sp.kc_eff as int, q as int);
            assert(a.len() == a@.len());
        }
        match &shared {
            Some(blocks) => {
                run_row_block::<F, E>(
                    blocks.region.as_slice(),
                    blocks.strips[ib],
                    bbuf,
                    bstrip,
                    c,
                    lc,
                    ic,
                    mc_eff,
                    mr,
                    jc,
                    nc_eff,
                    nr,
                    sp,
                    epi,
                    Ghost(prod),
                    Ghost(here),
                    Ghost(t),
                );
            },
            None => {
                if do_pack_lhs(la.rs, mc_eff, mr, want_pack_lhs) {
                    private.clear();
                    let strip = pack_strip(
                        &mut private,
                        a,
                        la,
                        ic,
                        pc,
                        mc_eff,
                        sp.kc_eff,
                        mr,
                        q,
                        pad,
                        Ghost(prod.a),
                    );
                    run_row_block::<F, E>(
                        private.as_slice(),
                        strip,
                        bbuf,
                        bstrip,
                        c,
                        lc,
                        ic,
                        mc_eff,
                        mr,
                        jc,
                        nc_eff,
                        nr,
                        sp,
                        epi,
                        Ghost(prod),
                        Ghost(here),
                        Ghost(t),
                    );
                } else {
                    proof {
                        lemma_strip_strided(
                            la,
                            a@,
                            prod.a,
                            prod.m,
                            prod.k,
                            ic,
                            pc,
                            mc_eff as int,
                            sp.kc_eff as int,
                            mr,
                        );
                    }
                    run_row_block::<F, E>(
                        a,
                        Strip::Strided { l: la, x0: ic, p0: pc, width: mr },
                        bbuf,
                        bstrip,
                        c,
                        lc,
                        ic,
                        mc_eff,
                        mr,
                        jc,
                        nc_eff,
                        nr,
                        sp,
                        epi,
                        Ghost(prod),
                        Ghost(here),
                        Ghost(t),
                    );
                }
            },
        }
        proof {
            lemma_state_ext(
                prod,
                c@,
                advanced(here, ic as int, ic + mc_eff, jc as int, jc + nc_eff, t + 1),
                advanced(start, 0, ic + mc_eff, jc as int, jc + nc_eff, t + 1),
            );
        }
        ic = ic + mc_eff;
        ib = ib + 1;
    }
    proof {
        lemma_state_ext(
            prod,
            c@,
            advanced(start, 0, m as int, jc as int, jc + nc_eff, t + 1),
            walked(prod.slices(), jc as int, jc + nc_eff, t + 1),
        );
    }
}

/// The right operand of a product: a strided view, or a buffer packed in advance.
pub enum Rhs<'a, T> {
    Plain { b: &'a [T], lb: Layout },
    Prepacked { buf: &'a [T], g: Packing },
}

impl<'a, T> Rhs<'a, T> {
    /// The operand is `k x n`, with `v(j, p)` in column `j` at depth `p`.
    pub open spec fn holds(self, v: spec_fn(int, int) -> T, k: int, n: int) -> bool {
        match self {
            Rhs::Plain { b, lb } => {
                &&& lb.fits(k, n, b@.len() as int)
                &&& forall|p: int, j: int|
                    0 <= p < k && 0 <= j < n ==> b@[#[trigger] lb.idx(p, j)] == v(j, p)
            },
            Rhs::Prepacked { buf, g } => {
                &&& g.holds(buf@, v)
                &&& g.k == k
                &&& g.n == n
            },
        }
    }

    /// The `(kc, nc)` that a prepacked operand fixes.
    pub open spec fn geometry(self) -> Option<(usize, usize)> {
        match self {
            Rhs::Plain { .. } => None,
            Rhs::Prepacked { g, .. } => Some((g.kc, g.nc)),
        }
    }
}

/// The loop nest: column blocks, depth slices, and within a slice the row blocks.
fn run_blocks<F: KernelFamily, E: Epilogue<F>>(
    a: &[F::Lhs],
    la: Layout,
    rhs: Rhs<'_, F::Rhs>,
    c: &mut [F::Out],
    lc: Layout,
    m: usize,
    k: usize,
    n: usize,
    plan: &Plan,
    mr: usize,
    nr: usize,
    q: usize,
    alpha: F::Acc,
    beta: F::Acc,
    epi: &E,
    Ghost(prod): Ghost<Product<F, E>>,
)
    requires
        prod.ready(),
        prod.c0 == old(c)@,
        prod.lc == lc,
        prod.epi == *epi,
        prod.alpha == alpha,
        prod.beta == beta,
        prod.m == m,
        prod.k == k,
        prod.n == n,
        prod.kc == plan.kc,
        mr > 0,
        nr > 0,
        q > 0,
        plan.mc > 0,
        plan.mc % mr == 0,
        plan.nc > 0,
        plan.nc % nr == 0,
        plan.mc * round_up(plan.kc as int, q as int) <= usize::MAX,
        plan.nc * round_up(plan.kc as int, q as int) <= usize::MAX,
        la.fits(prod.m, prod.k, a@.len() as int),
        forall|i: int, p: int|
            0 <= i < prod.m && 0 <= p < prod.k ==> a@[#[trigger] la.idx(i, p)] == (prod.a)(i, p),
        rhs.holds(prod.b, prod.k, prod.n),
        rhs matches Rhs::Prepacked { g, .. } ==> g.kc == plan.kc && g.nc == plan.nc && g.nr == nr
            && g.q == q,
    ensures
        prod.done(final(c)@),
{
    let ash: AlphaStatus = alpha_status(alpha);
    let first_bst: BetaStatus = beta_status(beta);
    let one: F::Acc = F::Acc::one();
    let pad: F::Rhs = F::rhs_pad();
    let ghost slices = prod.slices();
    let (kc, nc): (usize, usize) = (plan.kc, plan.nc);
    let mut region: Vec<F::Rhs> = Vec::new();
    let mut jc: usize = 0;
    let ghost mut jb: int = 0;
    proof {
        lemma_div_up(k as int, kc as int);
        lemma_div_up(n as int, nc as int);
        assert(prod.state(c@, walked(slices, 0, 0, 0)));
    }
    while jc < n
        invariant
            jc <= n,
            0 <= jb,
            jc == min_int(jb * nc, n as int),
            kc == plan.kc,
            nc == plan.nc,
            slices == prod.slices(),
            slices == div_up(k as int, kc as int),
            slices >= 1,
            (slices - 1) * kc < k <= slices * kc,
            n <= div_up(n as int, nc as int) * nc,
            ash is One <==> alpha.is_one_spec(),
            first_bst is Zero <==> beta.is_zero_spec(),
            first_bst is One <==> !beta.is_zero_spec() && beta.is_one_spec(),
            prod.ready(),
            prod.lc == lc,
            prod.epi == *epi,
            prod.alpha == alpha,
            prod.beta == beta,
            prod.m == m,
            prod.k == k,
            prod.n == n,
            prod.kc == kc,
            mr > 0,
            nr > 0,
            q > 0,
            plan.mc > 0,
            plan.mc % mr == 0,
            nc > 0,
            nc % nr == 0,
            plan.mc * round_up(kc as int, q as int) <= usize::MAX,
            nc * round_up(kc as int, q as int) <= usize::MAX,
            la.fits(prod.m, prod.k, a@.len() as int),
            forall|i: int, p: int|
                0 <= i < prod.m && 0 <= p < prod.k ==> a@[#[trigger] la.idx(i, p)] == (prod.a)(
                    i,
                    p,
                ),
            rhs.holds(prod.b, prod.k, prod.n),
            rhs matches Rhs::Prepacked { g, .. } ==> g.kc == kc && g.nc == nc && g.nr == nr
                && g.q == q,
            prod.state(c@, walked(slices, jc as int, jc as int, 0)),
        decreases n - jc,
    {
        let nc_eff: usize = min_usize(nc, n - jc);
        let je: usize = jc + nc_eff;
        proof {
            assert(jc == jb * nc);
            assert((jb + 1) * nc == jb * nc + nc) by (nonlinear_arith);
            let d = div_up(n as int, nc as int);
            assert(jb < d) by (nonlinear_arith)
                requires
                    jb * nc < n,
                    n <= d * nc,
                    nc > 0,
            ;
            lemma_state_ext(
                prod,
                c@,
                walked(slices, jc as int, jc as int, 0),
                walked(slices, jc as int, je as int, 0),
            );
        }
        let mut pc: usize = 0;
        let ghost mut t: int = 0;
        while pc < k
            invariant
                pc <= k,
                0 <= t <= slices,
                pc == min_int(t * kc, k as int),
                jc < n,
                je == jc + nc_eff,
                jc == jb * nc,
                0 <= jb < div_up(n as int, nc as int),
                nc_eff == min_int(nc as int, n - jc),
                kc == plan.kc,
                nc == plan.nc,
                slices == prod.slices(),
                slices == div_up(k as int, kc as int),
                slices >= 1,
                (slices - 1) * kc < k <= slices * kc,
                ash is One <==> alpha.is_one_spec(),
                first_bst is Zero <==> beta.is_zero_spec(),
                first_bst is One <==> !beta.is_zero_spec() && beta.is_one_spec(),
                prod.ready(),
                prod.lc == lc,
                prod.epi == *epi,
                prod.alpha == alpha,
                prod.beta == beta,
                prod.m == m,
                prod.k == k,
                prod.n == n,
                prod.kc == kc,
                mr > 0,
                nr > 0,
                q > 0,
                plan.mc > 0,
                plan.mc % mr == 0,
                nc > 0,
                nc % nr == 0,
                plan.mc * round_up(kc as int, q as int) <= usize::MAX,
                nc * round_up(kc as int, q as int) <= usize::MAX,
                la.fits(prod.m, prod.k, a@.len() as int),
                forall|i: int, p: int|
                    0 <= i < prod.m && 0 <= p < prod.k ==> a@[#[trigger] la.idx(i, p)] == (prod.a)(
                        i,
                        p,
                    ),
                rhs.holds(prod.b, prod.k, prod.n),
                rhs matches Rhs::Prepacked { g, .. } ==> g.kc == kc && g.nc == nc && g.nr == nr
                    && g.q == q,
                prod.state(c@, walked(slices, jc as int, je as int, t)),
            decreases k - pc,
        {
            let kc_eff: usize = min_usize(kc, k - pc);
            let first: bool = pc == 0;
            let last: bool = pc + kc_eff >= k;
            proof {
                assert(pc == t * kc);
                assert(t < slices) by (nonlinear_arith)
                    requires
                        t * kc < k,
                        k <= slices * kc,
                        kc > 0,
                ;
                assert((t + 1) * kc == t * kc + kc) by (nonlinear_arith);
                assert(first <==> t == 0) by (nonlinear_arith)
                    requires
                        first <==> t * kc == 0,
                        kc > 0,
                        t >= 0,
                ;
                assert(last <==> t == slices - 1) by (nonlinear_arith)
                    requires
                        last <==> (t + 1) * kc >= k,
                        t < slices,
                        (slices - 1) * kc < k <= slices * kc,
                        kc > 0,
                ;
                lemma_div_up(kc_eff as int, q as int);
                lemma_div_up(kc as int, q as int);
                lemma_div_up_least(kc_eff as int, q as int, div_up(kc as int, q as int));
                lemma_region_fits(plan.mc as int, kc_eff as int, kc as int, q as int);
                lemma_region_fits(nc as int, kc_eff as int, kc as int, q as int);
                lemma_block_pads(nc_eff as int, nc as int, nr as int, kc_eff as int, q as int);
            }
            let sp: SliceParams<F::Acc> = SliceParams {
                kc_eff,
                alpha,
                beta: if first {
                    beta
                } else {
                    one
                },
                ash,
                bst: if first {
                    first_bst
                } else {
                    BetaStatus::One
                },
                first,
                last,
            };
            match &rhs {
                Rhs::Prepacked { buf, g } => {
                    proof {
                        lemma_packing_start(*g, jb, t);
                        assert(g.strip(jb, t).holds(
                            buf@,
                            prod.b,
                            jb * g.nc,
                            t * g.kc,
                            g.cols(jb),
                            g.depth(t),
                        ));
                    }
                    let strip = prepacked_strip(*g, jc, nc_eff, pc, kc_eff, Ghost(jb), Ghost(t));
                    run_slice::<F, E>(
                        a,
                        la,
                        *buf,
                        strip,
                        c,
                        lc,
                        m,
                        plan.mc,
                        mr,
                        jc,
                        nc_eff,
                        nr,
                        pc,
                        q,
                        plan.shared_a,
                        plan.want_pack_lhs,
                        &sp,
                        epi,
                        Ghost(prod),
                        Ghost(t),
                    );
                },
                Rhs::Plain { b, lb } => {
                    let lt: Layout = lb.transposed();
                    proof {
                        lemma_transposed(*lb, k as int, n as int, b@.len() as int);
                        assert forall|j: int, p: int| 0 <= j < n && 0 <= p < k implies b@[
                            #[trigger] lt.idx(j, p)
                        ] == (prod.b)(j, p) by {
                            lemma_transposed_idx(*lb, j, p);
                        }
                        assert(b.len() == b@.len());
                    }
                    if plan.pack_b {
                        region.clear();
                        let strip = pack_strip(
                            &mut region,
                            *b,
                            lt,
                            jc,
                            pc,
                            nc_eff,
                            kc_eff,
                            nr,
                            q,
                            pad,
                            Ghost(prod.b),
                        );
                        run_slice::<F, E>(
                            a,
                            la,
                            region.as_slice(),
                            strip,
                            c,
                            lc,
                            m,
                            plan.mc,
                            mr,
                            jc,
                            nc_eff,
                            nr,
                            pc,
                            q,
                            plan.shared_a,
                            plan.want_pack_lhs,
                            &sp,
                            epi,
                            Ghost(prod),
                            Ghost(t),
                        );
                    } else {
                        proof {
                            lemma_strip_strided(
                                lt,
                                b@,
                                prod.b,
                                n as int,
                                k as int,
                                jc,
                                pc,
                                nc_eff as int,
                                kc_eff as int,
                                nr,
                            );
                        }
                        run_slice::<F, E>(
                            a,
                            la,
                            *b,
                            Strip::Strided { l: lt, x0: jc, p0: pc, width: nr },
                            c,
                            lc,
                            m,
                            plan.mc,
                            mr,
                            jc,
                            nc_eff,
                            nr,
                            pc,
                            q,
                            plan.shared_a,
                            plan.want_pack_lhs,
                            &sp,
                            epi,
                            Ghost(prod),
                            Ghost(t),
                        );
                    }
                },
            }
            proof {
                t = t + 1;
            }
            pc = pc + kc_eff;
        }
        proof {
            assert(t >= slices) by (nonlinear_arith)
                requires
                    t * kc >= k,
                    (slices - 1) * kc < k,
                    kc > 0,
            ;
            lemma_state_ext(
                prod,
                c@,
                walked(slices, jc as int, je as int, t),
                walked(slices, je as int, je as int, 0),
            );
            jb = jb + 1;
        }
        jc = je;
    }
    proof {
        lemma_state_done(prod, c@, walked(slices, n as int, n as int, 0));
    }
}

/// A slice of depth `eff <= kc` needs no larger region than a full one.
proof fn lemma_region_fits(block: int, eff: int, kc: int, q: int)
    requires
        block >= 0,
        0 < eff <= kc,
        q > 0,
    ensures
        block * round_up(eff, q) <= block * round_up(kc, q),
{
    lemma_div_up(eff, q);
    lemma_div_up(kc, q);
    lemma_div_up_least(eff, q, div_up(kc, q));
    let x = round_up(eff, q);
    let y = round_up(kc, q);
    assert(block * x <= block * y) by (nonlinear_arith)
        requires
            x <= y,
            block >= 0,
    ;
}

/// The panels of one column block and depth slice of a prepacked operand.
pub(crate) fn prepacked_strip(
    g: Packing,
    jc: usize,
    nc_eff: usize,
    pc: usize,
    kc_eff: usize,
    Ghost(jb): Ghost<int>,
    Ghost(t): Ghost<int>,
) -> (r: Strip)
    requires
        g.valid(),
        g.total() <= usize::MAX,
        0 <= jb < div_up(g.n as int, g.nc as int),
        0 <= t < div_up(g.k as int, g.kc as int),
        jc == jb * g.nc,
        pc == t * g.kc,
        nc_eff == g.cols(jb),
        kc_eff == g.depth(t),
    ensures
        r == g.strip(jb, t),
{
    proof {
        lemma_packing_start(g, jb, t);
        lemma_div_up(g.k as int, g.q as int);
        lemma_div_up(g.n as int, g.nr as int);
        lemma_div_up(nc_eff as int, g.nr as int);
        let kp = round_up(g.k as int, g.q as int);
        let nn = round_up(g.n as int, g.nr as int);
        let cn = round_up(nc_eff as int, g.nr as int);
        assert(kp <= nn * kp && cn <= nn * kp) by (nonlinear_arith)
            requires
                nn >= 1,
                kp >= 1,
                cn <= nn,
        ;
        assert(0 <= jc * kp && 0 <= cn * pc) by (nonlinear_arith)
            requires
                jc >= 0,
                kp >= 0,
                cn >= 0,
                pc >= 0,
        ;
    }
    let kp: usize = next_multiple_of(g.k, g.q);
    let cols: usize = next_multiple_of(nc_eff, g.nr);
    Strip::Packed {
        base: jc * kp + cols * pc,
        width: g.nr,
        q: g.q,
        kp: next_multiple_of(kc_eff, g.q),
    }
}

/// What the decisions about a product are made from. A kernel that takes `q > 1` steps of the
/// depth at a time reads packed panels only.
pub open spec fn request_spec<F: KernelFamily>(
    mr: usize,
    nr: usize,
    q: usize,
    m: usize,
    k: usize,
    n: usize,
    la: Layout,
    packed: Option<(usize, usize)>,
) -> Request {
    Request {
        mr,
        nr,
        lhs_bytes: vstd::layout::size_of::<F::Lhs>() as usize,
        rhs_bytes: vstd::layout::size_of::<F::Rhs>() as usize,
        out_bytes: vstd::layout::size_of::<F::Out>() as usize,
        out_is_acc: F::out_is_acc_spec(),
        depth_multiple: q,
        force_pack_lhs: F::force_pack_lhs_spec() || q > 1,
        force_pack_rhs: F::force_pack_rhs_spec() || q > 1,
        m,
        k,
        n,
        rsa: la.rs,
        csa: la.cs,
        packed,
    }
}

/// See [`request_spec`].
fn request<F: KernelFamily>(
    mr: usize,
    nr: usize,
    q: usize,
    m: usize,
    k: usize,
    n: usize,
    la: Layout,
    packed: Option<(usize, usize)>,
) -> (r: Request)
    requires
        mr > 0,
        nr > 0,
        q > 0,
        m > 0,
        k > 0,
        n > 0,
    ensures
        r == request_spec::<F>(mr, nr, q, m, k, n, la, packed),
        r.valid(),
{
    Request {
        mr,
        nr,
        lhs_bytes: core::mem::size_of::<F::Lhs>(),
        rhs_bytes: core::mem::size_of::<F::Rhs>(),
        out_bytes: core::mem::size_of::<F::Out>(),
        out_is_acc: F::out_is_acc(),
        depth_multiple: q,
        force_pack_lhs: F::force_pack_lhs() || q > 1,
        force_pack_rhs: F::force_pack_rhs() || q > 1,
        m,
        k,
        n,
        rsa: la.rs,
        csa: la.cs,
        packed,
    }
}

/// The product of two strided operands into a strided output.
pub open spec fn strided_product<F: KernelFamily, E: Epilogue<F>>(
    m: int,
    k: int,
    n: int,
    kc: int,
    a: Seq<F::Lhs>,
    la: Layout,
    b: Seq<F::Rhs>,
    lb: Layout,
    alpha: F::Acc,
    beta: F::Acc,
    c: Seq<F::Out>,
    lc: Layout,
    epi: E,
) -> Product<F, E> {
    Product {
        m,
        n,
        k,
        kc,
        a: |i: int, p: int| a[la.idx(i, p)],
        b: |j: int, p: int| b[lb.idx(p, j)],
        alpha,
        beta,
        lc,
        c0: c,
        epi,
    }
}

/// The engine behind every entry: make the decisions, then run the loop nest. The result is
/// that of the product at the depth split the decisions fix, whatever the parallelism.
pub(crate) fn run_inner<F: KernelFamily, E: Epilogue<F>>(
    ctx: &Context,
    par: Parallelism,
    mr: usize,
    nr: usize,
    q: usize,
    m: usize,
    k: usize,
    n: usize,
    alpha: F::Acc,
    a: &[F::Lhs],
    la: Layout,
    rhs: Rhs<'_, F::Rhs>,
    beta: F::Acc,
    c: &mut [F::Out],
    lc: Layout,
    epi: &E,
    Ghost(prod): Ghost<Product<F, E>>,
) -> (r: Result<(), GemmError>)
    requires
        prod.ready(),
        prod.c0 == old(c)@,
        prod.lc == lc,
        prod.epi == *epi,
        prod.alpha == alpha,
        prod.beta == beta,
        prod.m == m,
        prod.k == k,
        prod.n == n,
        mr > 0,
        nr > 0,
        q > 0,
        la.fits(prod.m, prod.k, a@.len() as int),
        forall|i: int, p: int|
            0 <= i < prod.m && 0 <= p < prod.k ==> a@[#[trigger] la.idx(i, p)] == (prod.a)(i, p),
        rhs.holds(prod.b, prod.k, prod.n),
        rhs matches Rhs::Prepacked { g, .. } ==> g.nr == nr && g.q == q,
        prod.kc == request_spec::<F>(mr, nr, q, m, k, n, la, rhs.geometry()).kc(*ctx),
    ensures
        r is Ok <==> request_spec::<F>(mr, nr, q, m, k, n, la, rhs.geometry()).fits(*ctx, par),
        r is Ok ==> prod.done(final(c)@),
        r matches Err(e) ==> e == GemmError::TooLarge && final(c)@ == old(c)@,
{
    let packed: Option<(usize, usize)> = match &rhs {
        Rhs::Plain { .. } => None,
        Rhs::Prepacked { g, .. } => Some((g.kc, g.nc)),
    };
    let req: Request = request::<F>(mr, nr, q, m, k, n, la, packed);
    match plan(ctx, par, &req) {
        None => Err(GemmError::TooLarge),
        Some(p) => {
            proof {
                if let Rhs::Prepacked { g, .. } = rhs {
                    lemma_multiple_rounds(g.nc as int, nr as int);
                }
            }
            run_blocks::<F, E>(
                a,
                la,
                rhs,
                c,
                lc,
                m,
                k,
                n,
                &p,
                mr,
                nr,
                req.depth_multiple,
                alpha,
                beta,
                epi,
                Ghost(prod),
            );
            Ok(())
        },
    }
}

/// Rounding a multiple up changes nothing.
proof fn lemma_multiple_rounds(x: int, b: int)
    requires
        x > 0,
        b > 0,
        x % b == 0,
    ensures
        round_up(x, b) == x,
        x >= b,
{
    lemma_fundamental_div_mod(x, b);
    assert((x / b) * b == b * (x / b)) by (nonlinear_arith);
    assert(x / b >= 1) by (nonlinear_arith)
        requires
            x == b * (x / b),
            x > 0,
            b > 0,
    ;
    assert(b * (x / b) >= b) by (nonlinear_arith)
        requires
            x / b >= 1,
            b > 0,
    ;
}

/// `C <- epilogue(alpha*A*B + beta*C)` for strided operands.
///
/// It fails only where a size overflows, and then nothing has been written.
pub fn run_epilogue<F: KernelFamily, E: Epilogue<F>>(
    ctx: &Context,
    par: Parallelism,
    mr: usize,
    nr: usize,
    q: usize,
    m: usize,
    k: usize,
    n: usize,
    alpha: F::Acc,
    a: &[F::Lhs],
    la: Layout,
    b: &[F::Rhs],
    lb: Layout,
    beta: F::Acc,
    c: &mut [F::Out],
    lc: Layout,
    epi: &E,
) -> (r: Result<(), GemmError>)
    requires
        0 < m,
        0 < k,
        0 < n,
        0 < mr,
        0 < nr,
        0 < q,
        la.fits(m as int, k as int, a@.len() as int),
        lb.fits(k as int, n as int, b@.len() as int),
        lc.fits(m as int, n as int, old(c)@.len() as int),
        lc.distinct(m as int, n as int),
        forall|v: F::Acc, i: int, j: int|
            0 <= i < m && 0 <= j < n ==> #[trigger] epi.accepts(v, i, j),
    ensures
        r is Ok <==> request_spec::<F>(mr, nr, q, m, k, n, la, None).fits(*ctx, par),
        r is Ok ==> strided_product::<F, E>(
            m as int,
            k as int,
            n as int,
            request_spec::<F>(mr, nr, q, m, k, n, la, None).kc(*ctx),
            a@,
            la,
            b@,
            lb,
            alpha,
            beta,
            old(c)@,
            lc,
            *epi,
        ).done(final(c)@),
        r matches Err(e) ==> e == GemmError::TooLarge && final(c)@ == old(c)@,
{
    let ghost req = request_spec::<F>(mr, nr, q, m, k, n, la, None);
    let ghost prod = strided_product::<F, E>(
        m as int,
        k as int,
        n as int,
        req.kc(*ctx),
        a@,
        la,
        b@,
        lb,
        alpha,
        beta,
        c@,
        lc,
        *epi,
    );
    run_inner::<F, E>(
        ctx,
        par,
        mr,
        nr,
        q,
        m,
        k,
        n,
        alpha,
        a,
        la,
        Rhs::Plain { b, lb },
        beta,
        c,
        lc,
        epi,
        Ghost(prod),
    )
}

/// `C <- alpha*A*B + beta*C` for strided operands: [`run_epilogue`] with nothing done at the
/// store.
pub fn run<F: KernelFamily>(
    ctx: &Context,
    par: Parallelism,
    mr: usize,
    nr: usize,
    q: usize,
    m: usize,
    k: usize,
    n: usize,
    alpha: F::Acc,
    a: &[F::Lhs],
    la: Layout,
    b: &[F::Rhs],
    lb: Layout,
    beta: F::Acc,
    c: &mut [F::Out],
    lc: Layout,
) -> (r: Result<(), GemmError>)
    requires
        0 < m,
        0 < k,
        0 < n,
        0 < mr,
        0 < nr,
        0 < q,
        la.fits(m as int, k as int, a@.len() as int),
        lb.fits(k as int, n as int, b@.len() as int),
        lc.fits(m as int, n as int, old(c)@.len() as int),
        lc.distinct(m as int, n as int),
    ensures
        r is Ok <==> request_spec::<F>(mr, nr, q, m, k, n, la, None).fits(*ctx, par),
        r is Ok ==> strided_product::<F, Identity>(
            m as int,
            k as int,
            n as int,
            request_spec::<F>(mr, nr, q, m, k, n, la, None).kc(*ctx),
            a@,
            la,
            b@,
            lb,
            alpha,
            beta,
            old(c)@,
            lc,
            Identity,
        ).done(final(c)@),
        r matches Err(e) ==> e == GemmError::TooLarge && final(c)@ == old(c)@,
{
    run_epilogue::<F, Identity>(
        ctx,
        par,
        mr,
        nr,
        q,
        m,
        k,
        n,
        alpha,
        a,
        la,
        b,
        lb,
        beta,
        c,
        lc,
        &Identity,
    )
}

} // verus!
