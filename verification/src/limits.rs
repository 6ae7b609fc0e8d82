//! What holds of every block size, and sizes at which nothing overflows.

use vstd::arithmetic::div_mod::*;
use vstd::arithmetic::mul::*;
use vstd::prelude::*;

use crate::arith::{
    div_up, lemma_div_bounds, lemma_div_up, lemma_div_up_least, max_int, min_int, round_up,
    saturate,
};
use crate::cache::{doubled_to, gcd_spec, lemma_gcd, next_pow2, CacheTopology, Level, Shape};
use crate::parallel::{Context, Parallelism};
use crate::plan::Request;
use crate::tuning::Tuning;

verus! {

/// Bounds on two factors bound their product.
proof fn lemma_product_bound(a: int, amax: int, b: int, bmax: int)
    requires
        0 <= a <= amax,
        0 <= b <= bmax,
    ensures
        0 <= a * b <= amax * bmax,
{
    assert(0 <= a * b <= amax * bmax) by (nonlinear_arith)
        requires
            0 <= a <= amax,
            0 <= b <= bmax,
    ;
}

/// A quotient is no larger than what is divided.
proof fn lemma_quotient_bound(a: int, b: int)
    requires
        0 <= a,
        0 < b,
    ensures
        0 <= a / b <= a,
{
    lemma_div_bounds(a, b);
}

/// Doubling stops before twice the goal.
proof fn lemma_doubled_bound(p: int, x: int)
    requires
        0 < p,
    ensures
        doubled_to(p, x) <= max_int(p, 2 * x),
        0 < doubled_to(p, x),
    decreases (if p < x { x - p } else { 0 }),
{
    if p < x {
        lemma_doubled_bound(2 * p, x);
    }
}

/// Rounding up adds less than one unit.
proof fn lemma_round_up_bound(a: int, b: int)
    requires
        0 <= a,
        0 < b,
    ensures
        a <= round_up(a, b) < a + b,
        0 <= div_up(a, b) <= a,
        a > 0 ==> div_up(a, b) >= 1,
{
    lemma_div_up(a, b);
}

/// A shape that is not empty, with a tile and an element size.
pub open spec fn proper(s: Shape) -> bool {
    s.mr > 0 && s.nr > 0 && s.sizeof > 0 && s.m > 0 && s.n > 0 && s.k > 0
}

/// Fewer multiples of a tile than the rows need.
proof fn lemma_even_blocks(n: int, step: int, r: int)
    requires
        n > 0,
        r > 0,
        step >= r,
    ensures
        0 < div_up(n, step) * r <= round_up(n, r),
        (div_up(n, step) * r) % r == 0,
{
    lemma_div_up(n, step);
    lemma_div_up(n, r);
    let q = div_up(n, r);
    assert(q * step >= n) by (nonlinear_arith)
        requires
            q * r >= n,
            step >= r,
            q >= 0,
    ;
    lemma_div_up_least(n, step, q);
    let d = div_up(n, step);
    assert(0 < d * r <= q * r) by (nonlinear_arith)
        requires
            1 <= d <= q,
            r > 0,
    ;
    lemma_mod_multiples_basic(d, r);
}

/// What every blocking keeps, whatever the caches and the knobs: a depth block lies in `1..=k`,
/// and a column block holds at least one tile and no more tiles than the columns need. Where the
/// panel caps are at least one panel and their product with the tile fits, row and column blocks
/// are whole tiles, and a row block too holds at least one and no more than the rows need.
pub proof fn law_blocks_are_whole_tiles(c: CacheTopology, tun: Tuning, s: Shape)
    requires
        proper(s),
    ensures
        1 <= c.blocking_spec(tun, s).1 <= s.k,
        s.nr <= c.blocking_spec(tun, s).2 <= round_up(s.n, s.nr),
        tun.mc_reg_panels >= 1 && tun.mc_reg_panels * s.mr <= usize::MAX ==> {
            &&& c.blocking_spec(tun, s).0 % s.mr == 0
            &&& s.mr <= c.blocking_spec(tun, s).0 <= round_up(s.m, s.mr)
        },
        tun.nc_no_l3_panels * s.nr <= usize::MAX ==> c.blocking_spec(tun, s).2 % s.nr == 0,
{
    lemma_round_up_bound(s.m, s.mr);
    lemma_round_up_bound(s.n, s.nr);
    lemma_div_up(s.m, s.mr);
    lemma_div_up(s.n, s.nr);
    lemma_mod_self_0(s.mr);
    lemma_mod_self_0(s.nr);
    let (qm, qn) = (div_up(s.m, s.mr), div_up(s.n, s.nr));
    assert(qm * s.mr >= s.mr) by (nonlinear_arith)
        requires
            qm >= 1,
            s.mr > 0,
    ;
    assert(qn * s.nr >= s.nr) by (nonlinear_arith)
        requires
            qn >= 1,
            s.nr > 0,
    ;
    let pm = tun.mc_reg_panels as int;
    let pn = tun.nc_no_l3_panels as int;
    assert(pm >= 1 ==> pm * s.mr >= s.mr) by (nonlinear_arith)
        requires
            s.mr > 0,
    ;
    lemma_mod_multiples_basic(pm, s.mr);
    lemma_mod_multiples_basic(pn, s.nr);
    if c.is_tiny(tun, s) {
        let kc = max_int(min_int(s.k, tun.tiny_kc_spec(s.sizeof)), 1);
        let rows = c.l2_bytes() / s.sizeof / kc;
        lemma_mod_multiples_basic(rows / s.mr, s.mr);
    } else {
        let kc = c.kc_model(tun, s);
        let pieces = max_int(div_up(s.k, c.kc_raw(tun, s)), 1);
        lemma_div_up(s.k, pieces);
        let step = c.mc_step(s, kc);
        let blocks = max_int(div_up(s.m, c.mc_raw(s, kc)), 1);
        assert(blocks * s.mr >= s.mr) by (nonlinear_arith)
            requires
                blocks >= 1,
                s.mr > 0,
        ;
        if tun.mc_reg_panels >= 1 && tun.mc_reg_panels * s.mr <= usize::MAX {
            assert(s.mr <= usize::MAX);
            lemma_even_blocks(s.m, step, s.mr);
            lemma_mod_multiples_basic(div_up(s.m, step), s.mr);
            let d = div_up(s.m, step);
            lemma_div_up(s.m, step);
            assert(d * s.mr >= s.mr) by (nonlinear_arith)
                requires
                    d >= 1,
                    s.mr > 0,
            ;
        }
        if c.l3_bytes() != 0 {
            let nstep = c.nc_step(s, kc);
            let nblocks = max_int(div_up(s.n, c.nc_raw(s, kc)), 1);
            assert(nblocks * s.nr >= s.nr) by (nonlinear_arith)
                requires
                    nblocks >= 1,
                    s.nr > 0,
            ;
            lemma_even_blocks(s.n, nstep, s.nr);
        }
    }
}

/// Evening `n` out over blocks of at most `raw` gives blocks that are no larger.
proof fn lemma_evened(n: int, raw: int, r: int, step: int)
    requires
        n > 0,
        r > 0,
        raw >= r,
        raw % r == 0,
        step == max_int(div_up(n, raw), 1) * r || step >= n,
        step >= 1,
    ensures
        max_int(div_up(n, step) * r, r) <= raw,
{
    let panels = raw / r;
    lemma_fundamental_div_mod(raw, r);
    assert(raw == panels * r) by (nonlinear_arith)
        requires
            raw == r * panels,
    ;
    assert(panels >= 1) by (nonlinear_arith)
        requires
            panels * r >= r,
            r > 0,
    ;
    lemma_div_up(n, raw);
    let blocks = max_int(div_up(n, raw), 1);
    if step >= n {
        lemma_mul_basics(step);
        lemma_div_up_least(n, step, 1);
    } else {
        assert(panels * step == blocks * raw) by (nonlinear_arith)
            requires
                step == blocks * r,
                raw == panels * r,
        ;
        lemma_div_up_least(n, step, panels);
    }
    let d = div_up(n, step);
    assert(d * r <= panels * r) by (nonlinear_arith)
        requires
            d <= panels,
            r > 0,
    ;
}

/// The largest multiple of `r` up to `x`, but at least `r`: it is `r`, or no more than `x`.
proof fn lemma_whole_panels(x: int, r: int)
    requires
        x >= 0,
        r > 0,
    ensures
        max_int((x / r) * r, r) >= r,
        max_int((x / r) * r, r) % r == 0,
        max_int((x / r) * r, r) == r || max_int((x / r) * r, r) <= x,
{
    lemma_div_bounds(x, r);
    lemma_mod_multiples_basic(x / r, r);
    lemma_mod_self_0(r);
}

/// Past the small-matrix case the A macro-panel fits beside one way of headroom in L2, unless it
/// is a single register panel.
pub proof fn law_row_block_fits_l2(c: CacheTopology, tun: Tuning, s: Shape)
    requires
        proper(s),
        s.m <= usize::MAX,
        !c.is_tiny(tun, s),
    ensures
        ({
            let (mc, kc, _) = c.blocking_spec(tun, s);
            mc <= s.mr || mc * kc * s.sizeof * c.l2_ways() <= (c.l2_ways() - 1) * c.l2_bytes()
        }),
{
    let (mc, kc, _) = c.blocking_spec(tun, s);
    let (w, l2) = (c.l2_ways(), c.l2_bytes());
    lemma_effective_bound(c.l2);
    let b = s.nr * kc * s.sizeof;
    assert(b >= 1) by (nonlinear_arith)
        requires
            b == s.nr * kc * s.sizeof,
            s.nr >= 1,
            kc >= 1,
            s.sizeof >= 1,
    ;
    lemma_div_up(b, max_int(l2 / w, 1));
    let lhs = c.lhs_l2_ways(s, kc);
    assert(1 <= lhs <= w - 1);
    let unit = w * s.sizeof * kc;
    assert(unit >= 1) by (nonlinear_arith)
        requires
            unit == w * s.sizeof * kc,
            w >= 1,
            s.sizeof >= 1,
            kc >= 1,
    ;
    assert(0 <= lhs * l2 <= (w - 1) * l2) by (nonlinear_arith)
        requires
            1 <= lhs <= w - 1,
            0 <= l2,
    ;
    let rows = (lhs * l2) / unit;
    lemma_div_bounds(lhs * l2, unit);
    lemma_whole_panels(rows, s.mr);
    let raw = c.mc_raw(s, kc);
    lemma_div_up(s.m, raw);
    let blocks = max_int(div_up(s.m, raw), 1);
    assert(blocks * s.mr >= 1) by (nonlinear_arith)
        requires
            blocks >= 1,
            s.mr >= 1,
    ;
    lemma_evened(s.m, raw, s.mr, c.mc_step(s, kc));
    assert(mc <= raw);
    if raw != s.mr && mc > s.mr {
        assert(mc * kc * s.sizeof * w <= rows * unit) by (nonlinear_arith)
            requires
                mc <= rows,
                0 <= mc,
                unit == w * s.sizeof * kc,
                kc >= 1,
                s.sizeof >= 1,
                w >= 1,
        ;
    }
}

/// Past the small-matrix case the B macro-panel fits in L3 beside one way, where there is an L3,
/// unless it is a single register panel.
pub proof fn law_column_block_fits_l3(c: CacheTopology, tun: Tuning, s: Shape)
    requires
        proper(s),
        !c.is_tiny(tun, s),
        c.l3_bytes() != 0,
    ensures
        ({
            let (_, kc, nc) = c.blocking_spec(tun, s);
            nc == s.nr || nc * kc * s.sizeof * c.l3_ways() <= (c.l3_ways() - 1) * c.l3_bytes()
        }),
{
    let (_, kc, nc) = c.blocking_spec(tun, s);
    let (w, l3) = (c.l3_ways(), c.l3_bytes());
    lemma_effective_bound(c.l3->0);
    assert(0 <= (w - 1) * l3) by (nonlinear_arith)
        requires
            w >= 2,
            l3 >= 0,
    ;
    let bytes = ((w - 1) * l3) / w;
    lemma_div_bounds((w - 1) * l3, w);
    let unit = s.sizeof * kc;
    assert(unit >= 1) by (nonlinear_arith)
        requires
            unit == s.sizeof * kc,
            s.sizeof >= 1,
            kc >= 1,
    ;
    let cols = bytes / unit;
    lemma_div_bounds(bytes, unit);
    lemma_whole_panels(cols, s.nr);
    let raw = c.nc_raw(s, kc);
    lemma_div_up(s.n, raw);
    let blocks = max_int(div_up(s.n, raw), 1);
    assert(blocks * s.nr >= 1) by (nonlinear_arith)
        requires
            blocks >= 1,
            s.nr >= 1,
    ;
    lemma_evened(s.n, raw, s.nr, c.nc_step(s, kc));
    assert(s.nr <= nc <= raw);
    if nc != s.nr {
        assert(nc * kc * s.sizeof <= cols * unit) by (nonlinear_arith)
            requires
                0 <= nc <= cols,
                unit == s.sizeof * kc,
                kc >= 1,
                s.sizeof >= 1,
        ;
        let used = nc * kc * s.sizeof;
        assert(used * w <= bytes * w) by (nonlinear_arith)
            requires
                used <= bytes,
                w >= 0,
        ;
    }
}

/// Past the small-matrix case the depth is spread evenly: no slice depth below `kc` gives as few
/// slices.
pub proof fn law_depth_is_spread_evenly(c: CacheTopology, tun: Tuning, s: Shape)
    requires
        proper(s),
        !c.is_tiny(tun, s),
    ensures
        c.blocking_spec(tun, s).1 == div_up(s.k, div_up(s.k, c.blocking_spec(tun, s).1)),
{
    let p = max_int(div_up(s.k, c.kc_raw(tun, s)), 1);
    lemma_div_up(s.k, p);
    let kc = c.kc_model(tun, s);
    assert(kc == div_up(s.k, p));
    assert(p * kc >= s.k) by (nonlinear_arith)
        requires
            kc * p >= s.k,
    ;
    lemma_div_up_least(s.k, kc, p);
    let q = div_up(s.k, kc);
    lemma_div_up(s.k, kc);
    assert(kc * q >= s.k) by (nonlinear_arith)
        requires
            q * kc >= s.k,
    ;
    lemma_div_up_least(s.k, q, kc);
    let d = div_up(s.k, q);
    lemma_div_up(s.k, q);
    assert(d * p >= s.k) by (nonlinear_arith)
        requires
            d * q >= s.k,
            q <= p,
            d >= 0,
    ;
    lemma_div_up_least(s.k, p, d);
}

/// The depth block of a small matrix, for elements of `sizeof` bytes.
pub open spec fn tiny_depth(c: CacheTopology, tun: Tuning, s: Shape, sizeof: int) -> int {
    c.blocking_spec(tun, (Shape { sizeof, ..s })).1
}

/// In the small-matrix case, and past the depth ceiling, an element takes a depth block of the
/// same panel bytes as a 4-byte one, to within one element, as long as the ceiling is divided at
/// its width and holds at least one element. This is so of every narrow element, and of a wide one
/// up to the target's cap.
pub proof fn law_small_blocks_keep_the_panel_bytes(
    c: CacheTopology,
    tun: Tuning,
    s: Shape,
    sizeof: int,
)
    requires
        proper(s),
        c.is_tiny(tun, s),
        4 <= tun.kc_sizeof_div_cap,
        1 <= sizeof <= tun.kc_sizeof_div_cap,
        1 <= tun.kc,
        sizeof <= 4 * tun.kc <= s.k <= usize::MAX,
    ensures
        tiny_depth(c, tun, s, sizeof) * sizeof <= tiny_depth(c, tun, s, 4) * 4,
        tiny_depth(c, tun, s, sizeof) * sizeof + sizeof > tiny_depth(c, tun, s, 4) * 4,
{
    let budget = tun.kc * 4;
    lemma_div_bounds(budget, sizeof);
    lemma_div_bounds(budget, 4);
    lemma_fundamental_div_mod(budget, sizeof);
    lemma_mod_bound(budget, sizeof);
    lemma_quotient_bound(budget, sizeof);
    let d = budget / sizeof;
    assert(d >= 1) by (nonlinear_arith)
        requires
            budget == sizeof * d + budget % sizeof,
            budget % sizeof < sizeof,
            budget >= sizeof,
            sizeof >= 1,
    ;
    assert(d * sizeof == sizeof * d) by (nonlinear_arith);
    assert(tiny_depth(c, tun, s, sizeof) == d);
    assert(tiny_depth(c, tun, s, 4) == tun.kc);
}

/// In the small-matrix case the depth never rises as the element widens.
pub proof fn law_small_blocks_never_deepen(
    c: CacheTopology,
    tun: Tuning,
    s: Shape,
    narrow: int,
    wide: int,
)
    requires
        proper(s),
        c.is_tiny(tun, s),
        1 <= narrow <= wide,
    ensures
        tiny_depth(c, tun, s, wide) <= tiny_depth(c, tun, s, narrow),
{
    let budget = saturate(tun.kc * 4);
    let a = max_int(min_int(narrow, tun.kc_sizeof_div_cap as int), 1);
    let b = max_int(min_int(wide, tun.kc_sizeof_div_cap as int), 1);
    lemma_div_is_ordered_by_denominator(budget, a, b);
}

/// In the small-matrix case a wide element keeps at least its share of the depth of a 4-byte one,
/// and keeps the whole depth where the target's cap does not let the ceiling be divided.
pub proof fn law_small_blocks_of_wide_elements(
    c: CacheTopology,
    tun: Tuning,
    s: Shape,
    sizeof: int,
)
    requires
        proper(s),
        c.is_tiny(tun, s),
        4 <= sizeof,
    ensures
        tiny_depth(c, tun, s, sizeof) >= tiny_depth(c, tun, s, 4) * 4 / sizeof,
        tun.kc_sizeof_div_cap <= 4 ==> tiny_depth(c, tun, s, sizeof) == tiny_depth(c, tun, s, 4),
{
    let budget = saturate(tun.kc * 4);
    let cap = tun.kc_sizeof_div_cap as int;
    let d = tiny_depth(c, tun, s, 4);
    let share = d * 4 / sizeof;
    lemma_div_bounds(d * 4, sizeof);
    assert(share <= d) by (nonlinear_arith)
        requires
            share * sizeof <= d * 4,
            sizeof >= 4,
            d >= 0,
    ;
    if cap > 4 {
        let w = min_int(sizeof, cap);
        lemma_div_bounds(budget, 4);
        lemma_div_bounds(budget, w);
        if budget >= 4 {
            assert(d * 4 <= budget);
            lemma_div_is_ordered(d * 4, budget, sizeof);
            lemma_div_is_ordered_by_denominator(budget, w, sizeof);
        } else {
            lemma_div_is_ordered_by_denominator(4, 4, sizeof);
        }
    }
}

/// Caches of ordinary sizes: at most a tebibyte, with lines of at most 4096 bytes and at most
/// 4096 ways.
pub open spec fn ordinary_cache(c: CacheTopology) -> bool {
    &&& ordinary_level(c.l1d)
    &&& ordinary_level(c.l2)
    &&& c.l3 matches Some(l) ==> ordinary_level(l)
}

pub open spec fn ordinary_level(l: Level) -> bool {
    &&& l.bytes <= 0x100_0000_0000
    &&& l.line <= 4096
    &&& l.assoc <= 4096
}

/// A product of an ordinary size: at most `2^24` in each dimension, with tiles and elements of
/// at most 256.
pub open spec fn ordinary_shape(s: Shape) -> bool {
    &&& ordinary_but_rows(s)
    &&& s.m <= 0x100_0000
}

/// As [`ordinary_shape`], with any number of rows that a word holds.
pub open spec fn ordinary_but_rows(s: Shape) -> bool {
    &&& proper(s)
    &&& s.mr <= 256
    &&& s.nr <= 256
    &&& s.sizeof <= 256
    &&& s.m <= usize::MAX
    &&& s.n <= 0x100_0000
    &&& s.k <= 0x100_0000
}

/// A word has 64 bits.
pub open spec fn wide() -> bool {
    usize::MAX == 0xffff_ffff_ffff_ffff && isize::MAX == 0x7fff_ffff_ffff_ffff
}

/// The bytes of a level that count for one worker.
proof fn lemma_effective_bound(l: Level)
    ensures
        0 <= l.effective() <= l.bytes,
{
    lemma_quotient_bound(l.bytes as int, max_int(l.shared_by as int, 1));
}

/// The way of an ordinary L1d.
proof fn lemma_way_bound(c: CacheTopology)
    requires
        ordinary_cache(c),
    ensures
        64 <= c.l1_way_bytes() <= 0x100_0000_0000,
        c.l1_line() * c.l1_ways() <= 0x100_0000,
{
    let (line, ways, bytes) = (c.l1_line(), c.l1_ways(), c.l1_bytes());
    lemma_effective_bound(c.l1d);
    lemma_product_bound(line, 4096, ways, 4096);
    assert(line * ways >= 128) by (nonlinear_arith)
        requires
            line >= 64,
            ways >= 2,
    ;
    let sets = bytes / (line * ways);
    lemma_div_bounds(bytes, line * ways);
    assert(line * sets <= bytes) by (nonlinear_arith)
        requires
            sets * (line * ways) <= bytes,
            ways >= 1,
            sets >= 0,
            line >= 0,
    ;
    assert(line * 1 == line);
    let n = max_int(sets, 1);
    assert(line * n >= line) by (nonlinear_arith)
        requires
            n >= 1,
            line >= 0,
    ;
}

/// The depth part of the model does not overflow.
proof fn lemma_kc_fits(c: CacheTopology, tun: Tuning, s: Shape)
    requires
        wide(),
        ordinary_cache(c),
        ordinary_but_rows(s),
    ensures
        c.kc_fits(s),
{
    lemma_way_bound(c);
    let way = c.l1_way_bytes();
    lemma_product_bound(s.mr, 256, s.sizeof, 256);
    let a = s.mr * s.sizeof;
    assert(a >= 1) by (nonlinear_arith)
        requires
            a == s.mr * s.sizeof,
            s.mr >= 1,
            s.sizeof >= 1,
    ;
    lemma_gcd(a, way);
    let g = max_int(gcd_spec(a, way), 1);
    lemma_quotient_bound(way, g);
    lemma_quotient_bound(a, g);
    let unit = c.kc_unit(s);
    lemma_product_bound(s.nr, 256, unit, 0x100_0000_0000);
    lemma_product_bound(s.nr * unit, 0x1_0000_0000_0000, s.sizeof, 256);
    lemma_quotient_bound(s.nr * unit * s.sizeof, way);
    let ways = c.lhs_ways(s) + c.rhs_ways(s);
    lemma_quotient_bound(c.l1_ways(), max_int(ways, 1));
    let mult = c.kc_multiple(s);
    lemma_doubled_bound(1, mult);
    assert(next_pow2(mult) <= 8192);
    lemma_product_bound(unit, 0x100_0000_0000, next_pow2(mult), 8192);
}

/// The row part of the model does not overflow.
proof fn lemma_mc_fits(c: CacheTopology, tun: Tuning, s: Shape, kc: int)
    requires
        wide(),
        ordinary_cache(c),
        ordinary_but_rows(s),
        1 <= kc <= s.k,
    ensures
        c.mc_fits(s, kc),
{
    lemma_effective_bound(c.l2);
    lemma_product_bound(s.nr, 256, kc, 0x100_0000);
    lemma_product_bound(s.nr * kc, 0x1_0000_0000, s.sizeof, 256);
    let way = max_int(c.l2_bytes() / c.l2_ways(), 1);
    lemma_round_up_bound(s.nr * kc * s.sizeof, way);
    lemma_product_bound(c.lhs_l2_ways(s, kc), 4096, c.l2_bytes(), 0x100_0000_0000);
    lemma_product_bound(c.l2_ways(), 4096, s.sizeof, 256);
    lemma_product_bound(c.l2_ways() * s.sizeof, 0x10_0000, kc, 0x100_0000);
    lemma_even_rows(c, s, kc);
}

/// However many rows there are, a row block is evened out to no more than the model's rows.
proof fn lemma_even_rows(c: CacheTopology, s: Shape, kc: int)
    requires
        wide(),
        ordinary_cache(c),
        ordinary_but_rows(s),
        1 <= kc <= s.k,
    ensures
        div_up(s.m, c.mc_step(s, kc)) * s.mr <= c.mc_raw(s, kc) <= 0x10_0000_0000_0000,
{
    lemma_effective_bound(c.l2);
    lemma_product_bound(c.lhs_l2_ways(s, kc), 4096, c.l2_bytes(), 0x100_0000_0000);
    let bytes = c.lhs_l2_ways(s, kc) * c.l2_bytes();
    let rows = bytes / max_int(c.l2_ways() * s.sizeof * kc, 1);
    lemma_quotient_bound(bytes, max_int(c.l2_ways() * s.sizeof * kc, 1));
    lemma_div_bounds(rows, s.mr);
    lemma_whole_panels(rows, s.mr);
    let raw = c.mc_raw(s, kc);
    lemma_div_up(s.m, raw);
    let blocks = max_int(div_up(s.m, raw), 1);
    assert(blocks * s.mr >= 1) by (nonlinear_arith)
        requires
            blocks >= 1,
            s.mr >= 1,
    ;
    lemma_evened(s.m, raw, s.mr, c.mc_step(s, kc));
}

/// The column part of the model does not overflow.
proof fn lemma_nc_fits(c: CacheTopology, tun: Tuning, s: Shape, kc: int)
    requires
        wide(),
        ordinary_cache(c),
        ordinary_but_rows(s),
        1 <= kc <= s.k,
    ensures
        c.nc_fits(s, kc),
{
    lemma_round_up_bound(s.n, s.nr);
    if c.l3_bytes() != 0 {
        let l = c.l3->0;
        lemma_effective_bound(l);
        lemma_product_bound(
            max_int(c.l3_ways() - 1, 1),
            4096,
            c.l3_bytes(),
            0x100_0000_0000,
        );
        lemma_product_bound(s.sizeof, 256, kc, 0x100_0000);
        lemma_round_up_bound(s.n, c.nc_raw(s, kc));
        let blocks = max_int(div_up(s.n, c.nc_raw(s, kc)), 1);
        lemma_product_bound(blocks, 0x100_0000, s.nr, 256);
        assert(blocks * s.nr >= 1) by (nonlinear_arith)
            requires
                blocks >= 1,
                s.nr >= 1,
        ;
        lemma_round_up_bound(s.n, c.nc_step(s, kc));
        lemma_product_bound(div_up(s.n, c.nc_step(s, kc)), 0x100_0000, s.nr, 256);
    }
}

/// The blocking of an ordinary product on an ordinary machine never overflows, whatever the
/// knobs are.
pub proof fn law_ordinary_blocking_fits(c: CacheTopology, tun: Tuning, s: Shape)
    requires
        wide(),
        ordinary_cache(c),
        ordinary_shape(s),
    ensures
        c.blocking_fits(tun, s),
        1 <= c.blocking_spec(tun, s).1 <= s.k,
        0 <= c.blocking_spec(tun, s).0 <= 0x2_0000_0000,
        s.nr <= c.blocking_spec(tun, s).2 <= 0x2_0000_0000,
{
    law_blocks_are_whole_tiles(c, tun, s);
    lemma_way_bound(c);
    lemma_round_up_bound(s.m, s.mr);
    lemma_round_up_bound(s.n, s.nr);
    lemma_effective_bound(c.l2);
    if c.is_tiny(tun, s) {
        let kc = max_int(min_int(s.k, tun.tiny_kc_spec(s.sizeof)), 1);
        lemma_quotient_bound(c.l2_bytes(), s.sizeof);
        lemma_quotient_bound(c.l2_bytes() / s.sizeof, kc);
        lemma_div_bounds(c.l2_bytes() / s.sizeof / kc, s.mr);
    } else {
        let kc = c.kc_model(tun, s);
        lemma_kc_fits(c, tun, s);
        lemma_mc_fits(c, tun, s, kc);
        lemma_nc_fits(c, tun, s, kc);
        lemma_round_up_bound(s.m, c.mc_step(s, kc));
        lemma_product_bound(div_up(s.m, c.mc_step(s, kc)), 0x100_0000, s.mr, 256);
        let cap = tun.mc_reg_panels * s.mr;
        assert(0 <= cap) by (nonlinear_arith)
            requires
                cap == tun.mc_reg_panels * s.mr,
                s.mr > 0,
                tun.mc_reg_panels >= 0,
        ;
    }
}

/// The full model of an otherwise ordinary product never overflows, however many rows it has and
/// whatever the knobs are.
pub proof fn law_rows_never_overflow(c: CacheTopology, tun: Tuning, s: Shape)
    requires
        wide(),
        ordinary_cache(c),
        ordinary_but_rows(s),
        !c.is_tiny(tun, s),
    ensures
        c.blocking_fits(tun, s),
{
    law_blocks_are_whole_tiles(c, tun, s);
    lemma_way_bound(c);
    let kc = c.kc_model(tun, s);
    lemma_kc_fits(c, tun, s);
    lemma_mc_fits(c, tun, s, kc);
    lemma_nc_fits(c, tun, s, kc);
}

/// The decisions about an ordinary product never overflow, whatever the knobs, the parallelism
/// and the number of workers are.
pub proof fn law_ordinary_request_fits(ctx: Context, par: Parallelism, r: Request)
    requires
        wide(),
        ordinary_cache(ctx.machine.cache),
        ordinary_shape(r.shape()),
        1 <= r.depth_multiple <= 64,
        r.packed matches Some((pkc, pnc)) ==> pkc <= 0x200_0000 && pnc <= 0x2_0000_0000,
    ensures
        r.fits(ctx, par),
{
    let c = ctx.machine.cache;
    let s = r.shape();
    law_ordinary_blocking_fits(c, ctx.tuning, s);
    let (mc, kc, nc) = r.blocks(ctx);
    let q = r.depth_multiple as int;
    lemma_round_up_bound(mc, r.mr as int);
    lemma_round_up_bound(kc, q);
    lemma_round_up_bound(nc, r.nr as int);
    if let Some((pkc, pnc)) = r.packed {
        lemma_round_up_bound(pnc as int, r.nr as int);
    }
    let kcr = r.kc(ctx);
    lemma_round_up_bound(kcr, q);
    assert(kcr <= 0x200_0000);
    assert(r.kc_pad(ctx) <= 0x400_0000);
    let ncr = r.nc(ctx);
    lemma_round_up_bound(ncr, r.nr as int);
    let tiles = r.tiles(ctx);
    assert(ncr <= 0x3_0000_0000);
    let mcm = r.mc_model(ctx);
    lemma_round_up_bound(r.m as int, mcm);
    lemma_product_bound(div_up(r.m as int, mcm), 0x100_0000, tiles, 0x3_0000_0000);
    let mcr = r.mc(ctx, par);
    let threads = r.threads(ctx, par);
    if threads > 1 && r.jobs_model(ctx) < saturate(threads * crate::plan::PAR_JOBS_PER_WORKER) {
        let want = saturate(threads * crate::plan::PAR_JOBS_PER_WORKER);
        lemma_round_up_bound(want, tiles);
        lemma_round_up_bound(r.m as int, r.mr as int);
        let blocks = min_int(div_up(want, tiles), div_up(r.m as int, r.mr as int));
        assert(blocks >= 1);
        lemma_round_up_bound(r.m as int, blocks);
        lemma_round_up_bound(div_up(r.m as int, blocks), r.mr as int);
    }
    assert(1 <= mcr <= mcm);
    lemma_product_bound(mcr, 0x3_0000_0000, r.kc_pad(ctx), 0x400_0000);
    lemma_product_bound(ncr, 0x3_0000_0000, r.kc_pad(ctx), 0x400_0000);
    lemma_round_up_bound(r.m as int, mcr);
    lemma_product_bound(div_up(r.m as int, mcr), 0x100_0000, tiles, 0x3_0000_0000);
}

} // verus!
