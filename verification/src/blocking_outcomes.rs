//! What the blocking model makes of the caches: how the depth fills L1, and how rows and columns
//! fill what the other levels leave.

use vstd::arithmetic::div_mod::*;
use vstd::arithmetic::mul::*;
use vstd::prelude::*;

use crate::arith::{div_up, lemma_div_up, max_int, min_int, round_up};
use crate::cache::{
    divides, fallback_machine, gcd_spec, lemma_gcd, next_pow2, CacheTopology, Shape,
};
use crate::limits::proper;
use crate::machine_outcomes::law_next_power_of_two;
use crate::parallel::{Context, Parallelism};
use crate::plan::Request;
use crate::tuning::{default_tuning, Tuning};

verus! {

/// The documented defaults of the knobs.
pub proof fn law_default_knobs()
    ensures
        ({
            let t = default_tuning();
            &&& t.parallel_threshold == 96 * 96 * 96
            &&& t.rhs_pack_threshold == 128
            &&& t.lhs_pack_threshold == 128
            &&& t.lhs_pack_reuse == 128
            &&& t.gemv_threshold == 1
            &&& t.small_k_threshold == 8
            &&& t.small_mn_dim == 8
            &&& t.small_mn_pack_min_k == 64
            &&& t.shared_lhs_mnk == 512 * 512 * 512
            &&& t.mc_reg_panels == 8
            &&& t.nc_no_l3_panels == 128
            &&& t.tiny_block_dim == 64
            &&& t.kc == 512
            &&& t.kc_min == 512
            &&& t.i8_vnni_min_par_mnk == 128 * 128 * 128
            &&& t.lhs_pack_stride == 0 && t.lhs_pack_span == 0 && t.gemv_parallel_bytes == 0
            &&& t.deep_kc_bytes == 0 && t.prefetch_min_bytes == 0 && t.gemv_thread_cap == 0
            &&& t.parallel_oversample == 0 && t.thread_dim_stride == 0 && t.k_stream_max == 0
            &&& t.seq_internal_bytes_per_worker == 0 && t.packed_oversample == 0
            &&& t.pack_transpose_tile == 0
        }),
{
}

/// The fallback machine: 48 KiB in 12 ways, 1 MiB in 16 ways and 32 MiB in 16 ways, all with lines
/// of 64 bytes and private, so that the first level has 64 sets; and pages of 4 KiB.
pub proof fn law_fallback_machine()
    ensures
        ({
            let m = fallback_machine();
            let (l1, l2) = (m.cache.l1d, m.cache.l2);
            &&& l1.bytes == 48 * 1024 && l1.assoc == 12 && l1.line == 64 && l1.shared_by == 1
            &&& l2.bytes == 1024 * 1024 && l2.assoc == 16 && l2.line == 64 && l2.shared_by == 1
            &&& m.cache.l3 matches Some(l3) && l3.bytes == 32 * l2.bytes && l3.assoc == 16
                && l3.line == 64 && l3.shared_by == 1
            &&& m.page_size == 4096
        }),
{
}

/// How the model reads the caches: a worker's share of each level, and a first level of at least
/// 32 KiB with lines of at least 64 bytes. No level has fewer than two ways, and a level that is
/// missing has no bytes.
pub proof fn law_model_reads_caches(c: CacheTopology)
    ensures
        c.l1_bytes() >= 32 * 1024,
        c.l1d.effective() >= 32 * 1024 ==> c.l1_bytes() == c.l1d.effective(),
        c.l1d.effective() < 32 * 1024 ==> c.l1_bytes() == 32 * 1024,
        c.l1d.line >= 64 ==> c.l1_line() == c.l1d.line,
        c.l1d.line < 64 ==> c.l1_line() == 64,
        c.l2_bytes() == c.l2.effective(),
        c.l3 is None ==> c.l3_bytes() == 0,
        c.l3 matches Some(l) ==> c.l3_bytes() == l.effective(),
        c.l1_ways() >= 2 && c.l2_ways() >= 2 && c.l3_ways() >= 2,
        c.l1d.assoc >= 2 ==> c.l1_ways() == c.l1d.assoc,
        c.l2.assoc >= 2 ==> c.l2_ways() == c.l2.assoc,
        c.l3 matches Some(l) && l.assoc >= 2 ==> (c.l3 matches Some(l) && c.l3_ways() == l.assoc),
{
}

/// One way of the first level: whole lines, as many as fit in all the ways, and at least one.
pub proof fn law_way_of_the_first_level(c: CacheTopology)
    ensures
        c.l1_way_bytes() >= c.l1_line(),
        c.l1_way_bytes() % c.l1_line() == 0,
        c.l1_way_bytes() > c.l1_line() ==> c.l1_ways() * c.l1_way_bytes() <= c.l1_bytes(),
        c.l1_bytes() < c.l1_ways() * (c.l1_way_bytes() + c.l1_line()),
{
    let (line, ways, bytes) = (c.l1_line(), c.l1_ways(), c.l1_bytes());
    let group = line * ways;
    assert(group > 0) by (nonlinear_arith)
        requires
            group == line * ways,
            line > 0,
            ways > 0,
    ;
    let q = bytes / group;
    lemma_fundamental_div_mod(bytes, group);
    lemma_mod_bound(bytes, group);
    lemma_div_pos_is_pos(bytes, group);
    let sets = max_int(q, 1);
    lemma_mul_basics(line);
    assert(line * sets >= line) by (nonlinear_arith)
        requires
            line > 0,
            sets >= 1,
    ;
    lemma_mod_multiples_basic(sets, line);
    assert(line * sets == sets * line) by (nonlinear_arith);
    assert(ways * (line * q) == group * q) by (nonlinear_arith)
        requires
            group == line * ways,
    ;
    assert(ways * (line * sets + line) == group * sets + group) by (nonlinear_arith)
        requires
            group == line * ways,
    ;
    if sets != q {
        assert(group * sets >= group * q) by (nonlinear_arith)
            requires
                sets >= q,
                group > 0,
        ;
    }
}

/// A whole unit of depth of the left panel fills whole ways of the first level.
pub proof fn law_unit_fills_ways(c: CacheTopology, s: Shape)
    requires
        proper(s),
    ensures
        c.kc_unit(s) >= 1,
        c.lhs_ways(s) >= 1,
        c.kc_unit(s) * (s.mr * s.sizeof) == c.lhs_ways(s) * c.l1_way_bytes(),
        gcd_spec(c.kc_unit(s), c.lhs_ways(s)) == 1,
{
    law_way_of_the_first_level(c);
    let (x, w) = (s.mr * s.sizeof, c.l1_way_bytes());
    assert(x > 0) by (nonlinear_arith)
        requires
            x == s.mr * s.sizeof,
            s.mr > 0,
            s.sizeof > 0,
    ;
    let g = gcd_spec(x, w);
    lemma_gcd(x, w);
    let a = choose|q: int| #[trigger] (q * g) == x;
    let b = choose|q: int| #[trigger] (q * g) == w;
    lemma_div_multiples_vanish(a, g);
    lemma_div_multiples_vanish(b, g);
    assert(a * g == g * a && b * g == g * b) by (nonlinear_arith);
    assert(c.lhs_ways(s) == a && c.kc_unit(s) == b);
    assert(b * (a * g) == a * (b * g)) by (nonlinear_arith);
    assert(a >= 1 && b >= 1) by (nonlinear_arith)
        requires
            a * g > 0,
            b * g > 0,
            g >= 1,
    ;
    // A common divisor of the two quotients would make a larger common divisor.
    let d = gcd_spec(b, a);
    lemma_gcd(b, a);
    let u = choose|q: int| #[trigger] (q * d) == b;
    let v = choose|q: int| #[trigger] (q * d) == a;
    assert(v * (d * g) == x && u * (d * g) == w) by (nonlinear_arith)
        requires
            v * d == a,
            u * d == b,
            a * g == x,
            b * g == w,
    ;
    assert(divides(d * g, x) && divides(d * g, w));
    assert(divides(d * g, g));
    let t = choose|q: int| #[trigger] (q * (d * g)) == g;
    assert(d == 1) by (nonlinear_arith)
        requires
            t * (d * g) == g,
            g >= 1,
            d >= 1,
    ;
}

/// As many units of depth are taken as fit beside each other in the ways of the first level, and
/// at least one.
pub proof fn law_units_share_the_first_level(c: CacheTopology, s: Shape)
    requires
        c.lhs_ways(s) + c.rhs_ways(s) > 0,
    ensures
        c.kc_multiple(s) >= 1,
        c.kc_multiple(s) > 1 ==> c.kc_multiple(s) * (c.lhs_ways(s) + c.rhs_ways(s)) <= c.l1_ways(),
        c.l1_ways() < (c.kc_multiple(s) + 1) * (c.lhs_ways(s) + c.rhs_ways(s)),
{
    let (w, d) = (c.l1_ways(), c.lhs_ways(s) + c.rhs_ways(s));
    let q = w / d;
    lemma_fundamental_div_mod(w, d);
    lemma_mod_bound(w, d);
    lemma_div_pos_is_pos(w, d);
    assert(q * d == d * q && (q + 1) * d == d * q + d) by (nonlinear_arith);
    if q == 0 {
        assert((1 + 1) * d >= (q + 1) * d) by (nonlinear_arith)
            requires
                q == 0,
                d > 0,
        ;
    }
}

/// The depth before it is spread: never more than there is, never less than the floor where there
/// is that much, and otherwise the units that fit, doubled up to a power of two of them.
pub proof fn law_depth_before_spreading(c: CacheTopology, tun: Tuning, s: Shape)
    requires
        proper(s),
    ensures
        c.kc_raw(tun, s) <= s.k,
        c.kc_raw(tun, s) >= min_int(tun.kc_min as int, s.k),
        tun.kc_min < c.kc_raw(tun, s) < s.k ==> {
            &&& c.kc_raw(tun, s) % c.kc_unit(s) == 0
            &&& c.kc_multiple(s) * c.kc_unit(s) <= c.kc_raw(tun, s)
            &&& c.kc_raw(tun, s) < 2 * c.kc_multiple(s) * c.kc_unit(s)
        },
        c.kc_raw(tun, s) >= min_int(c.kc_multiple(s) * c.kc_unit(s), s.k),
{
    law_unit_fills_ways(c, s);
    let (u, x) = (c.kc_unit(s), c.kc_multiple(s));
    law_next_power_of_two(x, 0);
    let p = next_pow2(x);
    lemma_mod_multiples_basic(p, u);
    assert(u * p == p * u) by (nonlinear_arith);
    assert(x * u <= p * u < 2 * x * u) by (nonlinear_arith)
        requires
            x <= p < 2 * x,
            u >= 1,
    ;
}

/// The ways of the second level that the right panel takes: the fewest that hold it. The left
/// panel is given the others but one, and at least one.
pub proof fn law_ways_of_the_second_level(c: CacheTopology, s: Shape, kc: int)
    requires
        proper(s),
        kc > 0,
    ensures
        ({
            let way = max_int(c.l2_bytes() / c.l2_ways(), 1);
            let panel = s.nr * kc * s.sizeof;
            &&& c.rhs_l2_ways(s, kc) * way >= panel
            &&& (c.rhs_l2_ways(s, kc) - 1) * way < panel
            &&& c.lhs_l2_ways(s, kc) >= 1
            &&& c.lhs_l2_ways(s, kc) > 1 ==> c.lhs_l2_ways(s, kc) + c.rhs_l2_ways(s, kc) + 1
                == c.l2_ways()
            &&& c.lhs_l2_ways(s, kc) + c.rhs_l2_ways(s, kc) + 1 >= c.l2_ways()
        }),
{
    let panel = s.nr * kc * s.sizeof;
    assert(panel > 0) by (nonlinear_arith)
        requires
            panel == s.nr * kc * s.sizeof,
            s.nr > 0,
            kc > 0,
            s.sizeof > 0,
    ;
    lemma_div_up(panel, max_int(c.l2_bytes() / c.l2_ways(), 1));
}

/// The rows of a left panel in the ways that it is given: whole tiles, and as many as fit.
pub proof fn law_rows_fill_their_ways(c: CacheTopology, s: Shape, kc: int)
    requires
        proper(s),
        kc > 0,
    ensures
        ({
            let room = c.lhs_l2_ways(s, kc) * c.l2_bytes();
            let row = c.l2_ways() * s.sizeof * kc;
            &&& c.mc_raw(s, kc) % s.mr == 0
            &&& c.mc_raw(s, kc) >= s.mr
            &&& c.mc_raw(s, kc) > s.mr ==> c.mc_raw(s, kc) * row <= room
            &&& room < (c.mc_raw(s, kc) + s.mr) * row
        }),
{
    let room = c.lhs_l2_ways(s, kc) * c.l2_bytes();
    let row = c.l2_ways() * s.sizeof * kc;
    lemma_div_pos_is_pos(c.l2.bytes as int, max_int(c.l2.shared_by as int, 1));
    assert(room >= 0) by (nonlinear_arith)
        requires
            room == c.lhs_l2_ways(s, kc) * c.l2_bytes(),
            c.lhs_l2_ways(s, kc) >= 0,
            c.l2_bytes() >= 0,
    ;
    assert(row > 0) by (nonlinear_arith)
        requires
            row == c.l2_ways() * s.sizeof * kc,
            c.l2_ways() > 0,
            s.sizeof > 0,
            kc > 0,
    ;
    lemma_whole_tiles(room, row, s.mr);
}

/// What fits in whole tiles.
proof fn lemma_whole_tiles(room: int, row: int, tile: int)
    requires
        room >= 0,
        row > 0,
        tile > 0,
    ensures
        ({
            let x = max_int((room / row / tile) * tile, tile);
            &&& x % tile == 0
            &&& x >= tile
            &&& x > tile ==> x * row <= room
            &&& room < (x + tile) * row
        }),
{
    let rows = room / row;
    let q = rows / tile;
    let x = max_int(q * tile, tile);
    lemma_fundamental_div_mod(room, row);
    lemma_mod_bound(room, row);
    lemma_div_pos_is_pos(room, row);
    lemma_fundamental_div_mod(rows, tile);
    lemma_mod_bound(rows, tile);
    lemma_div_pos_is_pos(rows, tile);
    lemma_mod_multiples_basic(q, tile);
    lemma_mod_self_0(tile);
    assert(tile * q == q * tile) by (nonlinear_arith);
    assert(q * tile <= rows < q * tile + tile);
    assert((q * tile) * row <= rows * row) by (nonlinear_arith)
        requires
            q * tile <= rows,
            row > 0,
    ;
    assert(row * rows == rows * row) by (nonlinear_arith);
    assert(room < (rows + 1) * row) by (nonlinear_arith)
        requires
            room < row * rows + row,
    ;
    assert((rows + 1) * row <= (x + tile) * row) by (nonlinear_arith)
        requires
            rows + 1 <= x + tile,
            row > 0,
    ;
}

/// The columns of a right panel in the third level beside one way of the left operand: whole
/// tiles, and as many as fit.
pub proof fn law_columns_fill_the_third_level(c: CacheTopology, s: Shape, kc: int)
    requires
        proper(s),
        kc > 0,
    ensures
        ({
            let room = ((c.l3_ways() - 1) * c.l3_bytes()) / c.l3_ways();
            let column = s.sizeof * kc;
            &&& c.nc_raw(s, kc) % s.nr == 0
            &&& c.nc_raw(s, kc) >= s.nr
            &&& c.nc_raw(s, kc) > s.nr ==> c.nc_raw(s, kc) * column <= room
            &&& room < (c.nc_raw(s, kc) + s.nr) * column
        }),
{
    let ways = c.l3_ways();
    let top = (ways - 1) * c.l3_bytes();
    if let Some(l) = c.l3 {
        lemma_div_pos_is_pos(l.bytes as int, max_int(l.shared_by as int, 1));
    }
    assert(top >= 0) by (nonlinear_arith)
        requires
            top == (ways - 1) * c.l3_bytes(),
            ways >= 2,
            c.l3_bytes() >= 0,
    ;
    lemma_div_pos_is_pos(top, ways);
    let column = s.sizeof * kc;
    assert(column > 0) by (nonlinear_arith)
        requires
            column == s.sizeof * kc,
            s.sizeof > 0,
            kc > 0,
    ;
    lemma_whole_tiles(top / ways, column, s.nr);
}

/// Blocks of one size that reach over `n` in a given number of blocks.
proof fn lemma_evened(n: int, blocks: int, tile: int)
    requires
        n > 0,
        blocks > 0,
        tile > 0,
    ensures
        ({
            let x = div_up(n, blocks * tile) * tile;
            &&& x >= tile
            &&& x * blocks >= n
            &&& (x - tile) * blocks < n
        }),
{
    let step = blocks * tile;
    assert(step > 0) by (nonlinear_arith)
        requires
            step == blocks * tile,
            blocks > 0,
            tile > 0,
    ;
    lemma_div_up(n, step);
    let d = div_up(n, step);
    assert(d * tile >= tile) by (nonlinear_arith)
        requires
            d >= 1,
            tile > 0,
    ;
    assert((d * tile) * blocks == d * step) by (nonlinear_arith)
        requires
            step == blocks * tile,
    ;
    assert((d * tile - tile) * blocks == (d - 1) * step) by (nonlinear_arith)
        requires
            step == blocks * tile,
    ;
}

/// The row blocks of the model are as many as its panels need, and evened out: the least whole
/// tiles that reach over all rows in that number, but no more than the cap.
pub proof fn law_row_blocks_are_evened(c: CacheTopology, tun: Tuning, s: Shape, kc: int)
    requires
        proper(s),
        kc > 0,
        div_up(s.m, c.mc_raw(s, kc)) * s.mr <= usize::MAX,
    ensures
        ({
            let blocks = div_up(s.m, c.mc_raw(s, kc));
            let cap = min_int(tun.mc_reg_panels * s.mr, usize::MAX as int);
            let mc = c.mc_model(tun, s, kc);
            &&& mc <= cap
            &&& mc < cap ==> mc >= s.mr && mc * blocks >= s.m
            &&& (mc - s.mr) * blocks < s.m
        }),
{
    law_rows_fill_their_ways(c, s, kc);
    lemma_div_up(s.m, c.mc_raw(s, kc));
    let blocks = div_up(s.m, c.mc_raw(s, kc));
    lemma_evened(s.m, blocks, s.mr);
    assert(blocks * s.mr >= 1) by (nonlinear_arith)
        requires
            blocks >= 1,
            s.mr >= 1,
    ;
    let (x, mc) = (div_up(s.m, blocks * s.mr) * s.mr, c.mc_model(tun, s, kc));
    assert((mc - s.mr) * blocks <= (x - s.mr) * blocks) by (nonlinear_arith)
        requires
            mc <= x,
            blocks >= 1,
    ;
}

/// The column blocks likewise, where there is a third level. Without one a block holds all the
/// columns, in whole tiles, but no more than the cap and at least one tile.
pub proof fn law_column_blocks_are_evened(c: CacheTopology, tun: Tuning, s: Shape, kc: int)
    requires
        proper(s),
        kc > 0,
    ensures
        ({
            let blocks = div_up(s.n, c.nc_raw(s, kc));
            let cap = min_int(tun.nc_no_l3_panels * s.nr, usize::MAX as int);
            let nc = c.nc_model(tun, s, kc);
            &&& nc >= s.nr
            &&& c.l3_bytes() != 0 ==> nc * blocks >= s.n && (nc - s.nr) * blocks < s.n
            &&& c.l3_bytes() == 0 && nc > s.nr ==> nc <= cap
            &&& c.l3_bytes() == 0 && nc < cap ==> s.n <= nc
            &&& c.l3_bytes() == 0 ==> nc < s.n + s.nr
        }),
{
    law_columns_fill_the_third_level(c, s, kc);
    lemma_div_up(s.n, c.nc_raw(s, kc));
    lemma_div_up(s.n, s.nr);
    let blocks = div_up(s.n, c.nc_raw(s, kc));
    lemma_evened(s.n, blocks, s.nr);
}

/// Which model blocks a shape: the small one, where neither the rows nor the columns are more than
/// its knob, and otherwise the full one. An empty shape is one block.
pub proof fn law_which_model(c: CacheTopology, tun: Tuning, s: Shape)
    requires
        s.mr > 0,
        s.nr > 0,
        s.m >= 0,
        s.n >= 0,
        s.k >= 0,
    ensures
        proper(s) && (s.m > tun.tiny_block_dim || s.n > tun.tiny_block_dim) ==> ({
            let kc = c.kc_model(tun, s);
            c.blocking_spec(tun, s) == (c.mc_model(tun, s, kc), kc, c.nc_model(tun, s, kc))
        }),
        s.m == 0 || s.n == 0 || s.k == 0 ==> ({
            let (mc, kc, nc) = c.blocking_spec(tun, s);
            mc >= s.m && mc >= s.mr && nc >= s.n && nc >= s.nr && kc >= s.k && kc >= 1 && (mc == s.m
                || mc == s.mr) && (nc == s.n || nc == s.nr) && (kc == s.k || kc == 1)
        }),
{
}

/// The blocks of a small matrix: the depth up to its ceiling, all the columns, and of the rows
/// whole tiles, as many as there are or as fit in the second level.
pub proof fn law_small_blocks(c: CacheTopology, tun: Tuning, s: Shape)
    requires
        proper(s),
        s.m <= tun.tiny_block_dim,
        s.n <= tun.tiny_block_dim,
    ensures
        ({
            let (mc, kc, nc) = c.blocking_spec(tun, s);
            &&& kc == min_int(s.k, tun.tiny_kc_spec(s.sizeof))
            &&& s.n <= nc < s.n + s.nr && nc % s.nr == 0
            &&& mc % s.mr == 0 && s.mr <= mc < s.m + s.mr
            &&& mc > s.mr ==> mc * (s.sizeof * kc) <= c.l2_bytes()
            &&& mc < s.m ==> c.l2_bytes() < (mc + s.mr) * (s.sizeof * kc)
        }),
{
    let (mc, kc, nc) = c.blocking_spec(tun, s);
    lemma_div_pos_is_pos(c.l2.bytes as int, max_int(c.l2.shared_by as int, 1));
    lemma_div_up(s.m, s.mr);
    lemma_div_up(s.n, s.nr);
    let row = s.sizeof * kc;
    assert(row > 0) by (nonlinear_arith)
        requires
            row == s.sizeof * kc,
            s.sizeof > 0,
            kc > 0,
    ;
    lemma_div_denominator(c.l2_bytes(), s.sizeof, kc);
    lemma_whole_tiles(c.l2_bytes(), row, s.mr);
    lemma_mod_self_0(s.mr);
    let fit = max_int((c.l2_bytes() / row / s.mr) * s.mr, s.mr);
    let (dm, dn) = (div_up(s.m, s.mr), div_up(s.n, s.nr));
    assert(dm * s.mr >= s.mr) by (nonlinear_arith)
        requires
            dm >= 1,
            s.mr > 0,
    ;
    assert(dn * s.nr >= s.nr) by (nonlinear_arith)
        requires
            dn >= 1,
            s.nr > 0,
    ;
    assert(mc == min_int(fit, round_up(s.m, s.mr)));
    if mc > s.mr && mc < fit {
        assert(mc * row <= fit * row) by (nonlinear_arith)
            requires
                mc <= fit,
                row > 0,
        ;
    }
}

/// Where a wide call would have fewer than eight jobs for each worker, its row blocks are cut: to
/// as many as give eight jobs each, or to single tiles where there are not that many. The blocks
/// are the least whole tiles that reach over all rows in that number. Otherwise they are the
/// model's.
pub proof fn law_row_blocks_are_cut(r: Request, ctx: Context, par: Parallelism)
    requires
        r.valid(),
        r.tiles(ctx) > 0,
        r.threads(ctx, par) * 8 <= usize::MAX,
    ensures
        ({
            let (threads, mc) = (r.threads(ctx, par), r.mc(ctx, par));
            let blocks = min_int(
                div_up(threads * 8, r.tiles(ctx)),
                div_up(r.m as int, r.mr as int),
            );
            let cut = threads > 1 && r.jobs_model(ctx) < threads * 8;
            &&& !cut ==> mc == r.mc_model(ctx)
            &&& cut && mc < r.mc_model(ctx) ==> mc * blocks >= r.m && (mc == r.mr || (mc - r.mr)
                * blocks < r.m)
        }),
{
    let (threads, mc, mr) = (r.threads(ctx, par), r.mc(ctx, par), r.mr as int);
    let m = r.m as int;
    if threads > 1 && r.jobs_model(ctx) < threads * 8 {
        lemma_div_up(threads * 8, r.tiles(ctx));
        lemma_div_up(m, mr);
        let blocks = min_int(div_up(threads * 8, r.tiles(ctx)), div_up(m, mr));
        lemma_div_up(m, blocks);
        let rows = div_up(m, blocks);
        lemma_div_up(rows, mr);
        if mc < r.mc_model(ctx) {
            assert(mc * blocks >= rows * blocks) by (nonlinear_arith)
                requires
                    mc >= rows,
                    blocks >= 1,
            ;
            if mc != mr {
                assert((mc - mr) * blocks <= (rows - 1) * blocks) by (nonlinear_arith)
                    requires
                        mc - mr <= rows - 1,
                        blocks >= 1,
                ;
            }
        }
    }
}

/// The depth ceiling of a small matrix: the knob itself for an element of four bytes, and one and
/// the same for all elements that are at least as wide as the target's cap.
pub proof fn law_wide_elements_share_a_ceiling(tun: Tuning, a: int, b: int)
    requires
        a >= tun.kc_sizeof_div_cap,
        b >= tun.kc_sizeof_div_cap,
    ensures
        tun.tiny_kc_spec(a) == tun.tiny_kc_spec(b),
        tun.tiny_kc_spec(a) >= 1,
        tun.kc_sizeof_div_cap >= 4 && 1 <= tun.kc && tun.kc * 4 <= usize::MAX ==> tun.tiny_kc_spec(
            4,
        ) == tun.kc,
{
    lemma_div_multiples_vanish(tun.kc as int, 4);
}

} // verus!
