//! Cache topology and analytical blocking.
//!
//! The blocking sizes `(mc, kc, nc)` follow from the cache geometry and the problem shape
//! alone: they adapt to the machine, and never depend on the number of workers.

use vstd::arithmetic::div_mod::*;
use vstd::arithmetic::mul::*;
use vstd::prelude::*;

use crate::arith::{
    checked_next_multiple_of, div_ceil, div_up, lemma_div_bounds, max_int, max_usize, min_int,
    min_usize, round_up, saturate, saturating_mul,
};
use crate::parallel::Target;
use crate::probes::Host;
use crate::tuning::Tuning;

verus! {

/// One cache level.
#[derive(Clone, Copy, Debug, PartialEq, Eq, Structural)]
pub struct Level {
    /// Size in bytes of the cache as reachable from one core, before dividing by `shared_by`.
    pub bytes: usize,
    /// Associativity (ways).
    pub assoc: usize,
    /// Line size in bytes.
    pub line: usize,
    /// Number of concurrent workers that contend for the data the driver keeps at this level:
    /// `1` for L1d and L3, the core-sharing degree for L2.
    pub shared_by: usize,
}

impl Level {
    /// Capacity per worker.
    pub open spec fn effective(self) -> int {
        self.bytes as int / max_int(self.shared_by as int, 1)
    }

    /// Capacity per worker: `bytes / shared_by`, with a `shared_by` of zero taken as one.
    pub fn effective_bytes(&self) -> (r: usize)
        ensures
            r == self.effective(),
            r <= self.bytes,
    {
        proof {
            lemma_div_bounds(self.bytes as int, max_int(self.shared_by as int, 1));
        }
        self.bytes / max_usize(self.shared_by, 1)
    }
}

/// The data-cache hierarchy used for blocking.
#[derive(Clone, Copy, Debug, PartialEq, Eq, Structural)]
pub struct CacheTopology {
    /// L1 data cache.
    pub l1d: Level,
    /// L2 cache.
    pub l2: Level,
    /// L3 cache, if any.
    pub l3: Option<Level>,
}

/// Blocking parameters of the driver.
#[derive(Clone, Copy, Debug, PartialEq, Eq, Structural)]
pub struct Blocking {
    /// Rows of A and C per row block.
    pub mc: usize,
    /// Depth per slice.
    pub kc: usize,
    /// Columns of B and C per column block.
    pub nc: usize,
}

/// The cache geometry at the bottom of the fallback chain: a 48 KiB 12-way L1d, a private
/// 1 MiB 16-way L2 and a 32 MiB 16-way L3.
pub open spec fn zen5_fallback_spec() -> CacheTopology {
    CacheTopology {
        l1d: Level { bytes: 49152, assoc: 12, line: 64, shared_by: 1 },
        l2: Level { bytes: 1048576, assoc: 16, line: 64, shared_by: 1 },
        l3: Some(Level { bytes: 33554432, assoc: 16, line: 64, shared_by: 1 }),
    }
}

/// See [`zen5_fallback_spec`].
pub fn zen5_fallback() -> (r: CacheTopology)
    ensures
        r == zen5_fallback_spec(),
{
    CacheTopology {
        l1d: Level { bytes: 49152, assoc: 12, line: 64, shared_by: 1 },
        l2: Level { bytes: 1048576, assoc: 16, line: 64, shared_by: 1 },
        l3: Some(Level { bytes: 33554432, assoc: 16, line: 64, shared_by: 1 }),
    }
}

/// Host facts: the data-cache hierarchy used for blocking, and the memory page size.
#[derive(Clone, Copy, Debug, PartialEq, Eq, Structural)]
pub struct Machine {
    /// The data-cache hierarchy.
    pub cache: CacheTopology,
    /// The memory page size in bytes.
    pub page_size: usize,
}

/// The smallest page size that is believed.
pub const PAGE_MIN: usize = 4096;

/// The largest page size that is believed.
pub const PAGE_MAX: usize = 2097152;

/// The machine at the bottom of the fallback chain: the fallback geometry and a 4 KiB page. It is
/// what a machine counts as from which nothing could be read.
pub open spec fn fallback_machine() -> Machine {
    Machine { cache: zen5_fallback_spec(), page_size: 4096 }
}

impl Machine {
    /// The machine that has been detected. It is found out once, and every call for a host hands
    /// back the same instance.
    pub fn current(host: &Host) -> (r: &Machine)
        ensures
            *r == host.machine(),
    {
        host.detected()
    }

    /// See [`fallback_machine`].
    pub fn fallback() -> (r: Machine)
        ensures
            r == fallback_machine(),
    {
        Machine { cache: zen5_fallback(), page_size: 4096 }
    }
}

/// The cache topology that has been detected, read through [`Machine::current`].
pub fn topology(host: &Host) -> (r: &CacheTopology)
    ensures
        *r == host.machine().cache,
{
    &Machine::current(host).cache
}

/// The page size that has been detected, read through [`Machine::current`].
pub fn page_size(host: &Host) -> (r: usize)
    ensures
        r == host.machine().page_size,
{
    Machine::current(host).page_size
}

/// A power of two.
pub open spec fn is_power_of_two(p: int) -> bool {
    p > 0 && next_pow2(p) == p
}

/// The page size to work with, from what the system reported: a power of two between
/// [`PAGE_MIN`] and [`PAGE_MAX`] is believed, and anything else is taken as 4 KiB.
pub open spec fn believed_page(reported: usize) -> usize {
    if is_power_of_two(reported as int) && PAGE_MIN <= reported <= PAGE_MAX {
        reported
    } else {
        4096
    }
}

/// The page size is always a power of two between [`PAGE_MIN`] and [`PAGE_MAX`].
pub proof fn law_page_size_is_plausible(reported: usize)
    ensures
        is_power_of_two(believed_page(reported) as int),
        PAGE_MIN <= believed_page(reported) <= PAGE_MAX,
{
    reveal_with_fuel(doubled_to, 14);
}

/// See [`believed_page`].
pub fn detect_page_size(reported: usize) -> (r: usize)
    ensures
        r == believed_page(reported),
{
    if PAGE_MIN <= reported && reported <= PAGE_MAX {
        if let Some(p) = checked_next_power_of_two(reported) {
            if p == reported {
                return reported;
            }
        }
    }
    4096
}

/// A level whose size, line and ways are large enough to be believed.
pub open spec fn plausible_level(l: Level) -> bool {
    l.bytes >= 4096 && l.line >= 16 && l.assoc >= 1
}

/// A topology that can be blocked with. A missing L3 is fine.
pub open spec fn plausible_spec(t: CacheTopology) -> bool {
    &&& plausible_level(t.l1d)
    &&& plausible_level(t.l2)
    &&& t.l3 matches Some(l) ==> plausible_level(l)
}

/// Sanity gate on a probed topology, so that a half-populated or garbled reading cannot
/// corrupt the blocking.
pub fn plausible(t: &CacheTopology) -> (r: bool)
    ensures
        r == plausible_spec(*t),
{
    let l1: bool = t.l1d.bytes >= 4096 && t.l1d.line >= 16 && t.l1d.assoc >= 1;
    let l2: bool = t.l2.bytes >= 4096 && t.l2.line >= 16 && t.l2.assoc >= 1;
    let l3: bool = match t.l3 {
        Some(l) => l.bytes >= 4096 && l.line >= 16 && l.assoc >= 1,
        None => true,
    };
    l1 && l2 && l3
}

/// The first probe that succeeded with a plausible topology, in the order of the chain.
pub open spec fn first_plausible(probes: Seq<Option<CacheTopology>>) -> CacheTopology
    decreases probes.len(),
{
    if probes.len() == 0 {
        zen5_fallback_spec()
    } else {
        match probes[0] {
            Some(t) => if plausible_spec(t) {
                t
            } else {
                first_plausible(probes.skip(1))
            },
            None => first_plausible(probes.skip(1)),
        }
    }
}

/// Run down the fallback chain: the first probe that succeeded and is plausible wins, and the
/// fallback geometry stands at its end. It never fails.
pub fn detect(probes: &[Option<CacheTopology>]) -> (r: CacheTopology)
    ensures
        r == first_plausible(probes@),
        plausible_spec(r),
{
    let mut i: usize = 0;
    assert(probes@.skip(0) == probes@);
    while i < probes.len()
        invariant
            i <= probes@.len(),
            first_plausible(probes@.skip(i as int)) == first_plausible(probes@),
        decreases probes.len() - i,
    {
        proof {
            assert(probes@.skip(i as int)[0] == probes@[i as int]);
            assert(probes@.skip(i as int).skip(1) == probes@.skip(i + 1));
        }
        if let Some(t) = probes[i] {
            if plausible(&t) {
                return t;
            }
        }
        i = i + 1;
    }
    zen5_fallback()
}

/// What a knob of zero stands for.
pub open spec fn or_auto(knob: usize, auto: int) -> int {
    if knob == 0 {
        auto
    } else {
        knob as int
    }
}

/// The depth stride, in bytes, from which a column-major A is packed instead of read in place:
/// the knob, or half a page.
pub fn lhs_pack_stride_bytes(tun: &Tuning, machine: &Machine) -> (r: usize)
    ensures
        r == or_auto(tun.lhs_pack_stride, machine.page_size as int / 2),
{
    if tun.lhs_pack_stride == 0 {
        machine.page_size / 2
    } else {
        tun.lhs_pack_stride
    }
}

/// The depth walk, in bytes, that the stride gate asks for as well: the knob, or 4 MiB.
pub fn lhs_pack_span_bytes(tun: &Tuning) -> (r: usize)
    ensures
        r == or_auto(tun.lhs_pack_span, 4194304),
{
    if tun.lhs_pack_span == 0 {
        4194304
    } else {
        tun.lhs_pack_span
    }
}

/// The bytes below which a matrix-vector product stays on one worker: the knob, or the private
/// L2 in front of an L3, or a fraction of a shared L2 (an eighth on aarch64, half elsewhere).
pub fn gemv_parallel_floor_bytes(tun: &Tuning, t: &CacheTopology, target: Target) -> (r: usize)
    ensures
        r == or_auto(
            tun.gemv_parallel_bytes,
            max_int(
                if t.l3 is Some {
                    t.l2.bytes as int
                } else if target is Aarch64 {
                    t.l2.bytes as int / 8
                } else {
                    t.l2.bytes as int / 2
                },
                1,
            ),
        ),
{
    if tun.gemv_parallel_bytes != 0 {
        return tun.gemv_parallel_bytes;
    }
    let no_l3_div: usize = match target {
        Target::Aarch64 => 8,
        _ => 2,
    };
    match t.l3 {
        Some(_) => max_usize(t.l2.bytes, 1),
        None => max_usize(t.l2.bytes / no_l3_div, 1),
    }
}

/// The per-worker capacity of the last cache level.
pub open spec fn last_level(t: CacheTopology) -> int {
    match t.l3 {
        Some(l3) => max_int(l3.effective(), 1),
        None => max_int(t.l2.effective(), 1),
    }
}

/// See [`last_level`].
fn last_level_bytes(t: &CacheTopology) -> (r: usize)
    ensures
        r == last_level(*t),
{
    match t.l3 {
        Some(l3) => max_usize(l3.effective_bytes(), 1),
        None => max_usize(t.l2.effective_bytes(), 1),
    }
}

/// The output size from which a matrix-vector product blocks its output in registers: the last
/// cache level.
pub fn gemv_regblock_engage_bytes(t: &CacheTopology) -> (r: usize)
    ensures
        r == last_level(*t),
{
    last_level_bytes(t)
}

/// The right micropanel size past which a narrow output accumulates in depth slices: the knob,
/// or half the L2.
pub fn deep_k_engage_bytes(tun: &Tuning, t: &CacheTopology) -> (r: usize)
    ensures
        r == or_auto(tun.deep_kc_bytes, max_int(t.l2.effective() / 2, 1)),
{
    if tun.deep_kc_bytes == 0 {
        max_usize(t.l2.effective_bytes() / 2, 1)
    } else {
        tun.deep_kc_bytes
    }
}

/// The working set past which output tiles are prefetched: the knob, or the last cache level.
pub fn prefetch_ws_bytes(tun: &Tuning, t: &CacheTopology) -> (r: usize)
    ensures
        r == or_auto(tun.prefetch_min_bytes, last_level(*t)),
{
    if tun.prefetch_min_bytes != 0 {
        return tun.prefetch_min_bytes;
    }
    last_level_bytes(t)
}

/// Euclid's greatest common divisor.
pub open spec fn gcd_spec(a: int, b: int) -> int
    decreases b,
{
    if b <= 0 || a < 0 {
        a
    } else {
        gcd_spec(b, a % b)
    }
}

/// `d` divides `x`.
pub open spec fn divides(d: int, x: int) -> bool {
    exists|q: int| #[trigger] (q * d) == x
}

/// The divisor that Euclid's algorithm finds divides both numbers, and every common divisor
/// divides it.
pub proof fn lemma_gcd(a: int, b: int)
    requires
        a >= 0,
        b >= 0,
    ensures
        gcd_spec(a, b) >= 0,
        a > 0 || b > 0 ==> gcd_spec(a, b) >= 1,
        divides(gcd_spec(a, b), a),
        divides(gcd_spec(a, b), b),
        forall|d: int| divides(d, a) && divides(d, b) ==> #[trigger] divides(d, gcd_spec(a, b)),
    decreases b,
{
    if b == 0 {
        assert(1 * a == a);
        assert(0 * a == 0);
    } else {
        let r = a % b;
        lemma_mod_bound(a, b);
        lemma_fundamental_div_mod(a, b);
        lemma_gcd(b, r);
        let g = gcd_spec(b, r);
        let qb = choose|q: int| #[trigger] (q * g) == b;
        let qr = choose|q: int| #[trigger] (q * g) == r;
        let q = a / b;
        assert((q * qb + qr) * g == a) by (nonlinear_arith)
            requires
                qb * g == b,
                qr * g == r,
                a == b * q + r,
        ;
        assert forall|d: int| divides(d, a) && divides(d, b) implies #[trigger] divides(
            d,
            gcd_spec(a, b),
        ) by {
            let xa = choose|x: int| #[trigger] (x * d) == a;
            let xb = choose|x: int| #[trigger] (x * d) == b;
            assert((xa - q * xb) * d == r) by (nonlinear_arith)
                requires
                    xa * d == a,
                    xb * d == b,
                    a == b * q + r,
            ;
            assert(divides(d, r));
        }
    }
}

/// Greatest common divisor, at least 1.
pub fn gcd(a: usize, b: usize) -> (r: usize)
    ensures
        r == max_int(gcd_spec(a as int, b as int), 1),
{
    let mut x: usize = a;
    let mut y: usize = b;
    while y != 0
        invariant
            gcd_spec(x as int, y as int) == gcd_spec(a as int, b as int),
        decreases y,
    {
        let t: usize = x % y;
        x = y;
        y = t;
    }
    max_usize(x, 1)
}

/// `a` rounded down to a multiple of `b`.
pub fn round_down(a: usize, b: usize) -> (r: usize)
    requires
        b > 0,
    ensures
        r == (a / b) * b,
        r <= a,
{
    proof {
        lemma_div_bounds(a as int, b as int);
    }
    (a / b) * b
}

/// The least `p * 2^i` that is at least `x`.
pub open spec fn doubled_to(p: int, x: int) -> int
    decreases (if p < x { x - p } else { 0 }),
{
    if p >= x || p <= 0 {
        p
    } else {
        doubled_to(2 * p, x)
    }
}

/// The least power of two that is at least `x`.
pub open spec fn next_pow2(x: int) -> int {
    doubled_to(1, x)
}

/// The least power of two that is at least `x`, or `None` where it overflows.
fn checked_next_power_of_two(x: usize) -> (r: Option<usize>)
    ensures
        r is Some <==> next_pow2(x as int) <= usize::MAX,
        r matches Some(p) ==> p == next_pow2(x as int),
{
    let mut p: usize = 1;
    while p < x
        invariant
            p >= 1,
            doubled_to(p as int, x as int) == next_pow2(x as int),
        decreases (if p < x { x - p } else { 0 }),
    {
        if p > usize::MAX / 2 {
            proof {
                lemma_doubled_to(2 * p, x as int);
            }
            return None;
        }
        p = 2 * p;
    }
    Some(p)
}

proof fn lemma_doubled_to(p: int, x: int)
    requires
        p > 0,
    ensures
        doubled_to(p, x) >= p,
        doubled_to(p, x) >= x,
    decreases (if p < x { x - p } else { 0 }),
{
    if p < x {
        lemma_doubled_to(2 * p, x);
    }
}

fn checked_mul3(a: usize, b: usize, c: usize) -> (r: Option<usize>)
    requires
        c > 0,
    ensures
        r == (if a * b * c <= usize::MAX {
            Some((a * b * c) as usize)
        } else {
            None
        }),
{
    match a.checked_mul(b) {
        None => {
            proof {
                assert(a * b * c >= a * b) by (nonlinear_arith)
                    requires
                        a >= 0,
                        b >= 0,
                        c >= 1,
                ;
            }
            None
        },
        Some(ab) => ab.checked_mul(c),
    }
}

/// The cache geometry as the blocking model reads it.
impl CacheTopology {
    pub open spec fn l1_bytes(self) -> int {
        max_int(self.l1d.effective(), 32768)
    }

    pub open spec fn l2_bytes(self) -> int {
        self.l2.effective()
    }

    pub open spec fn l3_bytes(self) -> int {
        match self.l3 {
            Some(l) => l.effective(),
            None => 0,
        }
    }

    pub open spec fn l1_line(self) -> int {
        max_int(self.l1d.line as int, 64)
    }

    pub open spec fn l1_ways(self) -> int {
        max_int(self.l1d.assoc as int, 2)
    }

    pub open spec fn l2_ways(self) -> int {
        max_int(self.l2.assoc as int, 2)
    }

    pub open spec fn l3_ways(self) -> int {
        match self.l3 {
            Some(l) => max_int(l.assoc as int, 2),
            None => 2,
        }
    }

    /// Bytes in one way of the L1d.
    pub open spec fn l1_way_bytes(self) -> int {
        self.l1_line() * max_int(self.l1_bytes() / (self.l1_line() * self.l1_ways()), 1)
    }
}

/// One `(tile, element, shape)` that is to be blocked.
pub struct Shape {
    pub mr: int,
    pub nr: int,
    pub sizeof: int,
    pub m: int,
    pub n: int,
    pub k: int,
}

impl CacheTopology {
    /// The small-matrix case, in which the panels are simply sized to fit L2.
    pub open spec fn is_tiny(self, tun: Tuning, s: Shape) -> bool {
        s.m <= tun.tiny_block_dim && s.n <= tun.tiny_block_dim
    }

    /// The blocking of a small matrix.
    pub open spec fn tiny_blocking(self, tun: Tuning, s: Shape) -> (int, int, int) {
        let kc = max_int(min_int(s.k, tun.tiny_kc_spec(s.sizeof)), 1);
        let mc = max_int(
            min_int(((self.l2_bytes() / s.sizeof / kc) / s.mr) * s.mr, round_up(s.m, s.mr)),
            s.mr,
        );
        (mc, kc, max_int(round_up(s.n, s.nr), s.nr))
    }

    /// The depth at which the A micropanel fills whole L1 ways.
    pub open spec fn kc_unit(self, s: Shape) -> int {
        self.l1_way_bytes() / max_int(gcd_spec(s.mr * s.sizeof, self.l1_way_bytes()), 1)
    }

    /// L1 ways that one depth unit of the A micropanel takes.
    pub open spec fn lhs_ways(self, s: Shape) -> int {
        (s.mr * s.sizeof) / max_int(gcd_spec(s.mr * s.sizeof, self.l1_way_bytes()), 1)
    }

    /// L1 ways that one depth unit of the B micropanel takes.
    pub open spec fn rhs_ways(self, s: Shape) -> int {
        (s.nr * self.kc_unit(s) * s.sizeof) / self.l1_way_bytes()
    }

    /// How many depth units fit in L1 beside each other.
    pub open spec fn kc_multiple(self, s: Shape) -> int {
        max_int(self.l1_ways() / max_int(self.lhs_ways(s) + self.rhs_ways(s), 1), 1)
    }

    /// The depth up to which both micropanels coexist in L1, before it is spread over `k`.
    pub open spec fn kc_raw(self, tun: Tuning, s: Shape) -> int {
        min_int(
            max_int(self.kc_unit(s) * next_pow2(self.kc_multiple(s)), tun.kc_min as int),
            s.k,
        )
    }

    /// `kc`: the raw depth, evened out so that no slice is a small remainder.
    pub open spec fn kc_model(self, tun: Tuning, s: Shape) -> int {
        max_int(div_up(s.k, max_int(div_up(s.k, self.kc_raw(tun, s)), 1)), 1)
    }

    /// L2 ways that the B micropanel takes at depth `kc`.
    pub open spec fn rhs_l2_ways(self, s: Shape, kc: int) -> int {
        div_up(s.nr * kc * s.sizeof, max_int(self.l2_bytes() / self.l2_ways(), 1))
    }

    /// L2 ways left for the A macro-panel: all but those of B and one of headroom.
    pub open spec fn lhs_l2_ways(self, s: Shape, kc: int) -> int {
        max_int(self.l2_ways() - (1 + self.rhs_l2_ways(s, kc)), 1)
    }

    /// The rows whose A macro-panel fits in those ways, in whole register panels.
    pub open spec fn mc_raw(self, s: Shape, kc: int) -> int {
        let rows = (self.lhs_l2_ways(s, kc) * self.l2_bytes()) / max_int(
            self.l2_ways() * s.sizeof * kc,
            1,
        );
        max_int((rows / s.mr) * s.mr, s.mr)
    }

    /// Row-block step: what `m` is divided by to even the blocks out.
    pub open spec fn mc_step(self, s: Shape, kc: int) -> int {
        max_int(saturate(max_int(div_up(s.m, self.mc_raw(s, kc)), 1) * s.mr), 1)
    }

    /// `mc`: the raw rows, evened out over `m` and held at the panel cap.
    pub open spec fn mc_model(self, tun: Tuning, s: Shape, kc: int) -> int {
        min_int(
            max_int(div_up(s.m, self.mc_step(s, kc)) * s.mr, s.mr),
            saturate(tun.mc_reg_panels * s.mr),
        )
    }

    /// The columns whose B macro-panel fits in L3 beside one way of streamed A.
    pub open spec fn nc_raw(self, s: Shape, kc: int) -> int {
        let bytes = (max_int(self.l3_ways() - 1, 1) * self.l3_bytes()) / self.l3_ways();
        max_int((bytes / max_int(s.sizeof * kc, 1) / s.nr) * s.nr, s.nr)
    }

    /// Column-block step: what `n` is divided by to even the blocks out.
    pub open spec fn nc_step(self, s: Shape, kc: int) -> int {
        max_int(div_up(s.n, self.nc_raw(s, kc)), 1) * s.nr
    }

    /// `nc`: with an L3, the raw columns evened out over `n`; without one, all columns up to
    /// the panel cap.
    pub open spec fn nc_model(self, tun: Tuning, s: Shape, kc: int) -> int {
        if self.l3_bytes() == 0 {
            max_int(min_int(saturate(tun.nc_no_l3_panels * s.nr), round_up(s.n, s.nr)), s.nr)
        } else {
            max_int(div_up(s.n, self.nc_step(s, kc)) * s.nr, s.nr)
        }
    }

    /// The blocking of a shape, as `(mc, kc, nc)`.
    pub open spec fn blocking_spec(self, tun: Tuning, s: Shape) -> (int, int, int) {
        if s.m == 0 || s.n == 0 || s.k == 0 {
            (max_int(s.m, s.mr), max_int(s.k, 1), max_int(s.n, s.nr))
        } else if self.is_tiny(tun, s) {
            self.tiny_blocking(tun, s)
        } else {
            let kc = self.kc_model(tun, s);
            (self.mc_model(tun, s, kc), kc, self.nc_model(tun, s, kc))
        }
    }

    /// No quantity behind `kc` leaves the range of `usize`.
    pub open spec fn kc_fits(self, s: Shape) -> bool {
        let top = usize::MAX as int;
        &&& s.mr * s.sizeof <= top
        &&& s.nr * self.kc_unit(s) * s.sizeof <= top
        &&& self.lhs_ways(s) + self.rhs_ways(s) <= top
        &&& next_pow2(self.kc_multiple(s)) <= top
        &&& self.kc_unit(s) * next_pow2(self.kc_multiple(s)) <= top
    }

    /// No quantity behind `mc` leaves the range of `usize`.
    pub open spec fn mc_fits(self, s: Shape, kc: int) -> bool {
        let top = usize::MAX as int;
        &&& s.nr * kc * s.sizeof <= top
        &&& 1 + self.rhs_l2_ways(s, kc) <= top
        &&& self.lhs_l2_ways(s, kc) * self.l2_bytes() <= top
        &&& self.l2_ways() * s.sizeof * kc <= top
        &&& div_up(s.m, self.mc_step(s, kc)) * s.mr <= top
    }

    /// No quantity behind `nc` leaves the range of `usize`.
    pub open spec fn nc_fits(self, s: Shape, kc: int) -> bool {
        let top = usize::MAX as int;
        if self.l3_bytes() == 0 {
            round_up(s.n, s.nr) <= top
        } else {
            &&& max_int(self.l3_ways() - 1, 1) * self.l3_bytes() <= top
            &&& s.sizeof * kc <= top
            &&& self.nc_step(s, kc) <= top
            &&& div_up(s.n, self.nc_step(s, kc)) * s.nr <= top
        }
    }

    /// No quantity of the model leaves the range of `usize`.
    pub open spec fn blocking_fits(self, tun: Tuning, s: Shape) -> bool {
        let top = usize::MAX as int;
        if s.m == 0 || s.n == 0 || s.k == 0 {
            true
        } else if self.is_tiny(tun, s) {
            &&& self.l1_line() * self.l1_ways() <= top
            &&& round_up(s.m, s.mr) <= top
            &&& round_up(s.n, s.nr) <= top
        } else {
            let kc = self.kc_model(tun, s);
            &&& self.l1_line() * self.l1_ways() <= top
            &&& self.kc_fits(s)
            &&& self.mc_fits(s, kc)
            &&& self.nc_fits(s, kc)
        }
    }

    /// Bytes in one way of the L1d, or `None` where its line times its ways overflows.
    fn checked_l1_way(&self) -> (r: Option<usize>)
        ensures
            r is Some <==> self.l1_line() * self.l1_ways() <= usize::MAX,
            r matches Some(w) ==> w == self.l1_way_bytes() && w >= 1,
    {
        let l1: usize = max_usize(self.l1d.effective_bytes(), 32768);
        let line: usize = max_usize(self.l1d.line, 64);
        let l1_assoc: usize = max_usize(self.l1d.assoc, 2);
        let set_bytes: usize = match line.checked_mul(l1_assoc) {
            Some(v) => v,
            None => return None,
        };
        proof {
            assert(line * l1_assoc > 0) by (nonlinear_arith)
                requires
                    line >= 64,
                    l1_assoc >= 2,
            ;
        }
        let l1_n_sets: usize = max_usize(l1 / set_bytes, 1);
        proof {
            lemma_div_bounds(l1 as int, set_bytes as int);
            assert(line * l1_n_sets <= usize::MAX) by (nonlinear_arith)
                requires
                    l1_n_sets == max_int(l1 as int / set_bytes as int, 1),
                    (l1 as int / set_bytes as int) * set_bytes <= l1,
                    set_bytes == line * l1_assoc,
                    l1_assoc >= 1,
                    line >= 0,
                    l1 <= usize::MAX,
                    line <= usize::MAX,
                    l1 as int / set_bytes as int >= 0,
            ;
            assert(line * l1_n_sets >= 1) by (nonlinear_arith)
                requires
                    line >= 64,
                    l1_n_sets >= 1,
            ;
        }
        Some(line * l1_n_sets)
    }

    /// Depth at which both micropanels coexist in L1, evened out over `k`.
    fn checked_kc(
        &self,
        tun: &Tuning,
        way: usize,
        mr: usize,
        nr: usize,
        sizeof: usize,
        k: usize,
        Ghost(s): Ghost<Shape>,
    ) -> (r: Option<usize>)
        requires
            way == self.l1_way_bytes(),
            way >= 1,
            mr > 0,
            nr > 0,
            sizeof > 0,
            k > 0,
            s.mr == mr,
            s.nr == nr,
            s.sizeof == sizeof,
            s.k == k,
        ensures
            r is Some <==> self.kc_fits(s),
            r matches Some(kc) ==> kc == self.kc_model(*tun, s) && 1 <= kc <= k,
    {
        let l1_assoc: usize = max_usize(self.l1d.assoc, 2);
        let a_bytes: usize = match mr.checked_mul(sizeof) {
            Some(v) => v,
            None => return None,
        };
        let g: usize = gcd(a_bytes, way);
        let kc_0: usize = way / g;
        let c_lhs: usize = a_bytes / g;
        assert(kc_0 == self.kc_unit(s));
        assert(c_lhs == self.lhs_ways(s));
        let b_bytes: usize = match checked_mul3(nr, kc_0, sizeof) {
            Some(v) => v,
            None => return None,
        };
        let c_rhs: usize = b_bytes / way;
        assert(c_rhs == self.rhs_ways(s));
        let c_both: usize = match c_lhs.checked_add(c_rhs) {
            Some(v) => v,
            None => return None,
        };
        let kc_mult: usize = max_usize(l1_assoc / max_usize(c_both, 1), 1);
        assert(kc_mult == self.kc_multiple(s));
        let kc_pow: usize = match checked_next_power_of_two(kc_mult) {
            Some(v) => v,
            None => return None,
        };
        assert(kc_pow == next_pow2(self.kc_multiple(s)));
        let kc_l1: usize = match kc_0.checked_mul(kc_pow) {
            Some(v) => v,
            None => return None,
        };
        let kc_raw: usize = min_usize(max_usize(kc_l1, tun.kc_min), k);
        proof {
            lemma_gcd(a_bytes as int, way as int);
            lemma_kc_unit_positive(way as int, g as int);
            lemma_doubled_to(1, kc_mult as int);
            assert(kc_0 * kc_pow >= 1) by (nonlinear_arith)
                requires
                    kc_0 >= 1,
                    kc_pow >= 1,
            ;
        }
        let k_iter: usize = max_usize(div_ceil(k, kc_raw), 1);
        let kc: usize = max_usize(div_ceil(k, k_iter), 1);
        Some(kc)
    }

    /// Rows whose A macro-panel fits in L2 beside the B micropanel and one spare way.
    fn checked_mc(
        &self,
        tun: &Tuning,
        mr: usize,
        nr: usize,
        sizeof: usize,
        m: usize,
        kc: usize,
        Ghost(s): Ghost<Shape>,
    ) -> (r: Option<usize>)
        requires
            mr > 0,
            nr > 0,
            sizeof > 0,
            kc > 0,
            s.mr == mr,
            s.nr == nr,
            s.sizeof == sizeof,
            s.m == m,
        ensures
            r is Some <==> self.mc_fits(s, kc as int),
            r matches Some(mc) ==> mc == self.mc_model(*tun, s, kc as int),
    {
        let l2: usize = self.l2.effective_bytes();
        let l2_assoc: usize = max_usize(self.l2.assoc, 2);
        let rhs_micropanel: usize = match checked_mul3(nr, kc, sizeof) {
            Some(v) => v,
            None => return None,
        };
        let rhs_l2: usize = div_ceil(rhs_micropanel, max_usize(l2 / l2_assoc, 1));
        assert(rhs_l2 == self.rhs_l2_ways(s, kc as int));
        let rhs_l2_1: usize = match rhs_l2.checked_add(1) {
            Some(v) => v,
            None => return None,
        };
        let lhs_l2: usize = max_usize(l2_assoc.saturating_sub(rhs_l2_1), 1);
        assert(lhs_l2 == self.lhs_l2_ways(s, kc as int));
        let lhs_l2_bytes: usize = match lhs_l2.checked_mul(l2) {
            Some(v) => v,
            None => return None,
        };
        let l2_den: usize = match checked_mul3(l2_assoc, sizeof, kc) {
            Some(v) => v,
            None => return None,
        };
        let mc_from: usize = lhs_l2_bytes / max_usize(l2_den, 1);
        let mc_raw: usize = max_usize(round_down(mc_from, mr), mr);
        assert(mc_raw == self.mc_raw(s, kc as int));
        let m_iter: usize = max_usize(div_ceil(m, mc_raw), 1);
        let step: usize = max_usize(saturating_mul(m_iter, mr), 1);
        assert(step == self.mc_step(s, kc as int));
        let mc_even: usize = match div_ceil(m, step).checked_mul(mr) {
            Some(v) => v,
            None => return None,
        };
        Some(min_usize(max_usize(mc_even, mr), saturating_mul(tun.mc_reg_panels, mr)))
    }

    /// Columns whose B macro-panel fits in L3.
    fn checked_nc(
        &self,
        tun: &Tuning,
        nr: usize,
        sizeof: usize,
        n: usize,
        kc: usize,
        Ghost(s): Ghost<Shape>,
    ) -> (r: Option<usize>)
        requires
            nr > 0,
            sizeof > 0,
            kc > 0,
            s.nr == nr,
            s.sizeof == sizeof,
            s.n == n,
        ensures
            r is Some <==> self.nc_fits(s, kc as int),
            r matches Some(nc) ==> nc == self.nc_model(*tun, s, kc as int),
    {
        let l3: usize = match self.l3 {
            Some(l) => l.effective_bytes(),
            None => 0,
        };
        let l3_assoc: usize = match self.l3 {
            Some(l) => max_usize(l.assoc, 2),
            None => 2,
        };
        if l3 == 0 {
            let n_up: usize = match checked_next_multiple_of(n, nr) {
                Some(v) => v,
                None => return None,
            };
            return Some(max_usize(min_usize(saturating_mul(tun.nc_no_l3_panels, nr), n_up), nr));
        }
        let rhs_l3: usize = max_usize(l3_assoc.saturating_sub(1), 1);
        let rhs_l3_bytes: usize = match rhs_l3.checked_mul(l3) {
            Some(v) => v,
            None => return None,
        };
        let per_col: usize = match sizeof.checked_mul(kc) {
            Some(v) => v,
            None => return None,
        };
        let nc_raw: usize = max_usize(
            round_down(rhs_l3_bytes / l3_assoc / max_usize(per_col, 1), nr),
            nr,
        );
        assert(nc_raw == self.nc_raw(s, kc as int));
        let n_iter: usize = max_usize(div_ceil(n, nc_raw), 1);
        let n_step: usize = match n_iter.checked_mul(nr) {
            Some(v) => v,
            None => return None,
        };
        proof {
            assert(n_iter * nr >= 1) by (nonlinear_arith)
                requires
                    n_iter >= 1,
                    nr >= 1,
            ;
        }
        assert(n_step == self.nc_step(s, kc as int));
        match div_ceil(n, n_step).checked_mul(nr) {
            Some(v) => Some(max_usize(v, nr)),
            None => None,
        }
    }

    /// The blocking of a shape, or `None` where a quantity of the model overflows.
    pub fn checked_blocking(
        &self,
        tun: &Tuning,
        mr: usize,
        nr: usize,
        sizeof: usize,
        m: usize,
        n: usize,
        k: usize,
    ) -> (r: Option<Blocking>)
        requires
            m == 0 || n == 0 || k == 0 || (mr > 0 && nr > 0 && sizeof > 0),
        ensures
            ({
                let s = Shape {
                    mr: mr as int,
                    nr: nr as int,
                    sizeof: sizeof as int,
                    m: m as int,
                    n: n as int,
                    k: k as int,
                };
                let (mc, kc, nc) = self.blocking_spec(*tun, s);
                &&& r is Some <==> self.blocking_fits(*tun, s)
                &&& r matches Some(b) ==> b.mc == mc && b.kc == kc && b.nc == nc
            }),
    {
        let ghost s = Shape {
            mr: mr as int,
            nr: nr as int,
            sizeof: sizeof as int,
            m: m as int,
            n: n as int,
            k: k as int,
        };
        if m == 0 || n == 0 || k == 0 {
            return Some(
                Blocking { mc: max_usize(m, mr), kc: max_usize(k, 1), nc: max_usize(n, nr) },
            );
        }
        let way: usize = match self.checked_l1_way() {
            Some(v) => v,
            None => return None,
        };
        // Small matrix: skip the model and size the panels to fit L2.
        if m <= tun.tiny_block_dim && n <= tun.tiny_block_dim {
            let l2: usize = self.l2.effective_bytes();
            let kc: usize = max_usize(min_usize(k, tun.tiny_kc(sizeof)), 1);
            let fit: usize = round_down(l2 / sizeof / kc, mr);
            let m_up: usize = match checked_next_multiple_of(m, mr) {
                Some(v) => v,
                None => return None,
            };
            let n_up: usize = match checked_next_multiple_of(n, nr) {
                Some(v) => v,
                None => return None,
            };
            return Some(
                Blocking { mc: max_usize(min_usize(fit, m_up), mr), kc, nc: max_usize(n_up, nr) },
            );
        }
        let kc: usize = match self.checked_kc(tun, way, mr, nr, sizeof, k, Ghost(s)) {
            Some(v) => v,
            None => return None,
        };
        let mc: usize = match self.checked_mc(tun, mr, nr, sizeof, m, kc, Ghost(s)) {
            Some(v) => v,
            None => return None,
        };
        let nc: usize = match self.checked_nc(tun, nr, sizeof, n, kc, Ghost(s)) {
            Some(v) => v,
            None => return None,
        };
        Some(Blocking { mc, kc, nc })
    }

    /// The blocking `(mc, kc, nc)` of a problem for a microtile and an element size. It
    /// depends on the cache geometry, the knobs and the shape alone.
    pub fn blocking(
        &self,
        tun: &Tuning,
        mr: usize,
        nr: usize,
        sizeof: usize,
        m: usize,
        n: usize,
        k: usize,
    ) -> (r: Blocking)
        requires
            m == 0 || n == 0 || k == 0 || (mr > 0 && nr > 0 && sizeof > 0),
            self.blocking_fits(
                *tun,
                (Shape {
                    mr: mr as int,
                    nr: nr as int,
                    sizeof: sizeof as int,
                    m: m as int,
                    n: n as int,
                    k: k as int,
                }),
            ),
        ensures
            (r.mc as int, r.kc as int, r.nc as int) == self.blocking_spec(
                *tun,
                (Shape {
                    mr: mr as int,
                    nr: nr as int,
                    sizeof: sizeof as int,
                    m: m as int,
                    n: n as int,
                    k: k as int,
                }),
            ),
    {
        match self.checked_blocking(tun, mr, nr, sizeof, m, n, k) {
            Some(b) => b,
            None => Blocking { mc: 0, kc: 0, nc: 0 },
        }
    }
}

proof fn lemma_kc_unit_positive(way: int, g: int)
    requires
        way >= 1,
        g >= 1,
        divides(g, way),
    ensures
        way / g >= 1,
{
    let q = choose|q: int| #[trigger] (q * g) == way;
    assert(q >= 1) by (nonlinear_arith)
        requires
            q * g == way,
            way >= 1,
            g >= 1,
    ;
    lemma_div_multiples_vanish(q, g);
    assert(g * q == q * g) by (nonlinear_arith);
}

} // verus!
