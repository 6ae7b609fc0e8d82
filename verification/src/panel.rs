//! Packed micropanels: a strip of `width` lanes (rows of the left operand or columns of the
//! right one), stored depth group by depth group so that a microtile reads it in order.

use vstd::arithmetic::div_mod::*;
use vstd::arithmetic::mul::*;
use vstd::prelude::*;

use crate::arith::{
    div_up, lemma_div_up, lemma_div_up_least, min_int, min_usize, next_multiple_of, round_up,
};
use crate::layout::Layout;

verus! {

/// Position of lane `x` at depth `p` in a panel of `width` lanes. Depths are grouped by `q`:
/// a group holds, lane after lane, its `q` consecutive depths. With `q == 1` this is
/// `p*width + x`.
pub open spec fn packed_idx(width: int, q: int, x: int, p: int) -> int {
    ((p / q) * width + x) * q + p % q
}

/// A packed position lies inside the padded panel, and gives its lane and depth back.
pub proof fn lemma_packed_idx(width: int, q: int, kc: int, x: int, p: int)
    requires
        q > 0,
        0 <= x < width,
        0 <= p < kc,
    ensures
        ({
            let t = packed_idx(width, q, x, p);
            &&& 0 <= t < round_up(kc, q) * width
            &&& (t / q) % width == x
            &&& ((t / q) / width) * q + t % q == p
        }),
{
    let g = p / q;
    let e = p % q;
    let t = packed_idx(width, q, x, p);
    lemma_fundamental_div_mod(p, q);
    lemma_mod_bound(p, q);
    lemma_div_pos_is_pos(p, q);
    lemma_div_up(kc, q);
    let kg = div_up(kc, q);
    assert(g + 1 <= kg) by (nonlinear_arith)
        requires
            p == q * g + e,
            p < kc,
            kc <= kg * q,
            0 <= e,
            q > 0,
    ;
    let s = g * width + x;
    assert(0 <= s <= kg * width - 1) by (nonlinear_arith)
        requires
            s == g * width + x,
            0 <= x < width,
            0 <= g,
            g + 1 <= kg,
    ;
    assert(t == s * q + e);
    assert(0 <= t < (kg * q) * width) by (nonlinear_arith)
        requires
            t == s * q + e,
            0 <= s <= kg * width - 1,
            0 <= e < q,
    ;
    lemma_fundamental_div_mod_converse(t, q, s, e);
    lemma_fundamental_div_mod_converse(s, width, g, x);
    assert(q * g == g * q) by (nonlinear_arith);
}

/// Where a microtile reads an operand: straight from the strided source, or from a packed
/// panel.
#[derive(Clone, Copy, Debug)]
pub enum Panel {
    /// Lane `x` at depth `p` is element `(x0 + x, p0 + p)` of a strided view.
    Strided { l: Layout, x0: usize, p0: usize },
    /// Lane `x` at depth `p` is at its packed position behind `base`.
    Packed { base: usize, width: usize, q: usize },
}

impl Panel {
    /// Offset of lane `x` at depth `p`.
    pub open spec fn idx(self, x: int, p: int) -> int {
        match self {
            Panel::Strided { l, x0, p0 } => l.idx(x0 + x, p0 + p),
            Panel::Packed { base, width, q } => base + packed_idx(
                width as int,
                q as int,
                x,
                p,
            ),
        }
    }

    /// The panel holds, for `lanes` lanes and `depth` depths, the values `v` at the given
    /// origin, all of them inside `buf`.
    pub open spec fn holds<T>(
        self,
        buf: Seq<T>,
        v: spec_fn(int, int) -> T,
        x0: int,
        p0: int,
        lanes: int,
        depth: int,
    ) -> bool {
        &&& self matches Panel::Packed { q, .. } ==> q > 0
        &&& self matches Panel::Strided { l, x0: sx, p0: sp } ==> (forall|x: int, p: int|
            0 <= x < sx + lanes && 0 <= p < sp + depth ==> 0 <= #[trigger] l.idx(x, p)
                <= usize::MAX)
        &&& forall|x: int, p: int|
            0 <= x < lanes && 0 <= p < depth ==> 0 <= #[trigger] self.idx(x, p) < buf.len()
                && buf[self.idx(x, p)] == v(x0 + x, p0 + p)
    }

    /// Outside the first `lanes` lanes and the first `depth` depths the packed panel holds the
    /// padding, up to its full width and the depth `kp`.
    pub open spec fn padded<T>(
        self,
        buf: Seq<T>,
        pad: T,
        lanes: int,
        depth: int,
        kp: int,
    ) -> bool {
        self matches Panel::Packed { width, .. } ==> forall|x: int, p: int|
            0 <= x < width && 0 <= p < kp && (x >= lanes || p >= depth) ==> 0
                <= #[trigger] self.idx(x, p) < buf.len() && buf[self.idx(x, p)] == pad
    }

    /// The value of lane `x` at depth `p`.
    pub(crate) fn read<T: Copy>(
        self,
        buf: &[T],
        x: usize,
        p: usize,
        Ghost(v): Ghost<spec_fn(int, int) -> T>,
        Ghost(x0): Ghost<int>,
        Ghost(p0): Ghost<int>,
        Ghost(lanes): Ghost<int>,
        Ghost(depth): Ghost<int>,
    ) -> (r: T)
        requires
            self.holds(buf@, v, x0, p0, lanes, depth),
            x < lanes <= usize::MAX - (if self is Strided { self->x0 as int } else { 0 }),
            p < depth <= usize::MAX - (if self is Strided { self->p0 as int } else { 0 }),
        ensures
            r == v(x0 + x, p0 + p),
    {
        let ghost at = self.idx(x as int, p as int);
        assert(at < buf.len());
        match self {
            Panel::Strided { l, x0, p0 } => {
                assert(0 <= l.idx((x0 + x) as int, (p0 + p) as int) <= usize::MAX);
                assert(0 <= l.idx((x0 + x) as int, 0) <= usize::MAX);
                assert(0 <= l.idx(0, (p0 + p) as int) <= usize::MAX);
                buf[l.at(x0 + x, p0 + p)]
            },
            Panel::Packed { base, width, q } => {
                let g: usize = p / q;
                let e: usize = p % q;
                proof {
                    lemma_fundamental_div_mod(p as int, q as int);
                    assert(base + packed_idx(width as int, q as int, x as int, p as int) == at);
                    assert(0 <= g * width <= g * width + x <= (g * width + x) * q)
                        by (nonlinear_arith)
                        requires
                            g >= 0,
                            width >= 0,
                            x >= 0,
                            q >= 1,
                    ;
                }
                buf[base + ((g * width + x) * q + e)]
            },
        }
    }
}

/// Append one packed panel to `dst`: `eff` lanes of `kc` depths taken from element `(x0, p0)`
/// on, padded to `width` lanes and to a multiple of `q` depths.
pub(crate) fn pack_panel<T: Copy>(
    dst: &mut Vec<T>,
    src: &[T],
    l: Layout,
    x0: usize,
    p0: usize,
    eff: usize,
    kc: usize,
    width: usize,
    q: usize,
    pad: T,
)
    requires
        q > 0,
        0 < eff <= width,
        kc > 0,
        round_up(kc as int, q as int) * width <= usize::MAX,
        x0 + eff <= usize::MAX,
        p0 + kc <= usize::MAX,
        forall|x: int, p: int|
            0 <= x < x0 + eff && 0 <= p < p0 + kc ==> 0 <= #[trigger] l.idx(x, p) < src@.len(),
    ensures
        final(dst)@.len() == old(dst)@.len() + round_up(kc as int, q as int) * width,
        forall|t: int| 0 <= t < old(dst)@.len() ==> #[trigger] final(dst)@[t] == old(dst)@[t],
        forall|x: int, p: int|
            0 <= x < eff && 0 <= p < kc ==> final(dst)@[old(dst)@.len() + #[trigger] packed_idx(
                width as int,
                q as int,
                x,
                p,
            )] == src@[l.idx(x0 + x, p0 + p)],
        forall|x: int, p: int|
            0 <= x < width && 0 <= p < round_up(kc as int, q as int) && (x >= eff || p >= kc)
                ==> final(dst)@[old(dst)@.len() + #[trigger] packed_idx(
                width as int,
                q as int,
                x,
                p,
            )] == pad,
{
    proof {
        lemma_div_up(kc as int, q as int);
        lemma_mul_ordering_with_width(round_up(kc as int, q as int), width as int);
    }
    let kp: usize = next_multiple_of(kc, q);
    let total: usize = kp * width;
    let ghost base = dst@.len() as int;
    let ghost prefix = dst@;
    let mut t: usize = 0;
    while t < total
        invariant
            t <= total,
            total == kp * width,
            kp == round_up(kc as int, q as int),
            q > 0,
            0 < eff <= width,
            kc > 0,
            x0 + eff <= usize::MAX,
            p0 + kc <= usize::MAX,
            base == prefix.len(),
            dst@.len() == base + t,
            forall|x: int, p: int|
                0 <= x < x0 + eff && 0 <= p < p0 + kc ==> 0 <= #[trigger] l.idx(x, p)
                    < src@.len(),
            forall|s: int| 0 <= s < base ==> #[trigger] dst@[s] == prefix[s],
            forall|s: int|
                0 <= s < t ==> (#[trigger] lane_of(s, width as int, q as int) < eff && depth_of(
                    s,
                    width as int,
                    q as int,
                ) < kc ==> dst@[base + s] == src@[l.idx(
                    x0 + lane_of(s, width as int, q as int),
                    p0 + depth_of(s, width as int, q as int),
                )]),
            forall|s: int|
                0 <= s < t ==> (#[trigger] lane_of(s, width as int, q as int) >= eff || depth_of(
                    s,
                    width as int,
                    q as int,
                ) >= kc ==> dst@[base + s] == pad),
        decreases total - t,
    {
        let s: usize = t / q;
        let x: usize = s % width;
        let g: usize = s / width;
        let e: usize = t % q;
        proof {
            lemma_fundamental_div_mod(t as int, q as int);
            lemma_fundamental_div_mod(s as int, width as int);
            lemma_div_pos_is_pos(s as int, width as int);
            assert(g * q + e <= t) by (nonlinear_arith)
                requires
                    s == width * g + x,
                    t == q * s + e,
                    width >= 1,
                    x >= 0,
                    g >= 0,
                    q >= 1,
            ;
            assert(0 <= g * q) by (nonlinear_arith)
                requires
                    g >= 0,
                    q >= 1,
            ;
        }
        let p: usize = g * q + e;
        proof {
            assert(lane_of(t as int, width as int, q as int) == x);
            assert(depth_of(t as int, width as int, q as int) == p);
        }
        let v: T = if x < eff && p < kc {
            assert(0 <= l.idx((x0 + x) as int, (p0 + p) as int) < src.len());
            assert(0 <= l.idx((x0 + x) as int, 0) < src.len());
            assert(0 <= l.idx(0, (p0 + p) as int) < src.len());
            src[l.at(x0 + x, p0 + p)]
        } else {
            pad
        };
        dst.push(v);
        t = t + 1;
    }
    assert forall|x: int, p: int| 0 <= x < eff && 0 <= p < kc implies dst@[base
        + #[trigger] packed_idx(width as int, q as int, x, p)] == src@[l.idx(x0 + x, p0 + p)] by {
        lemma_packed_idx(width as int, q as int, kc as int, x, p);
        let s = packed_idx(width as int, q as int, x, p);
        assert(lane_of(s, width as int, q as int) == x);
        assert(depth_of(s, width as int, q as int) == p);
    }
    assert forall|x: int, p: int|
        0 <= x < width && 0 <= p < kp && (x >= eff || p >= kc) implies dst@[base
        + #[trigger] packed_idx(width as int, q as int, x, p)] == pad by {
        lemma_rounded(kc as int, q as int);
        lemma_packed_idx(width as int, q as int, kp as int, x, p);
        let s = packed_idx(width as int, q as int, x, p);
        assert(lane_of(s, width as int, q as int) == x);
        assert(depth_of(s, width as int, q as int) == p);
    }
}

/// Rounding up twice changes nothing more.
proof fn lemma_rounded(a: int, b: int)
    requires
        a >= 0,
        b > 0,
    ensures
        round_up(round_up(a, b), b) == round_up(a, b),
{
    lemma_div_up(a, b);
    lemma_div_up(round_up(a, b), b);
    lemma_div_up_least(round_up(a, b), b, div_up(a, b));
    assert(div_up(round_up(a, b), b) >= div_up(a, b)) by (nonlinear_arith)
        requires
            div_up(round_up(a, b), b) * b >= div_up(a, b) * b,
            b > 0,
    ;
}

/// The lane at packed position `s`.
spec fn lane_of(s: int, width: int, q: int) -> int {
    (s / q) % width
}

/// The depth at packed position `s`.
spec fn depth_of(s: int, width: int, q: int) -> int {
    ((s / q) / width) * q + s % q
}

proof fn lemma_mul_ordering_with_width(a: int, w: int)
    requires
        a >= 0,
        w >= 1,
    ensures
        a <= a * w,
{
    assert(a <= a * w) by (nonlinear_arith)
        requires
            a >= 0,
            w >= 1,
    ;
}

/// A run of panels that lie side by side: the lanes of one block, `width` at a time.
#[derive(Clone, Copy, Debug)]
pub enum Strip {
    /// Read in place from a strided view, the first lane at `(x0, p0)`.
    Strided { l: Layout, x0: usize, p0: usize, width: usize },
    /// Packed panels behind `base`, each padded to depth `kp`.
    Packed { base: usize, width: usize, q: usize, kp: usize },
}

impl Strip {
    /// Lanes per panel.
    pub open spec fn width(self) -> int {
        match self {
            Strip::Strided { width, .. } => width as int,
            Strip::Packed { width, .. } => width as int,
        }
    }

    /// Panel `r` of the strip.
    pub open spec fn panel_spec(self, r: int) -> Panel {
        match self {
            Strip::Strided { l, x0, p0, width } => Panel::Strided {
                l,
                x0: (x0 + r * width) as usize,
                p0,
            },
            Strip::Packed { base, width, q, kp } => Panel::Packed {
                base: (base + r * (kp * width)) as usize,
                width,
                q,
            },
        }
    }

    /// Panel `r` can be named without overflow.
    pub open spec fn names(self, r: int, lanes: int, depth: int) -> bool {
        match self {
            Strip::Strided { l, x0, p0, width } => {
                &&& 0 <= r * width < lanes
                &&& x0 + lanes <= usize::MAX
                &&& p0 + depth <= usize::MAX
            },
            Strip::Packed { base, width, q, kp } => {
                &&& 0 <= r * (kp * width)
                &&& 0 <= kp * width <= usize::MAX
                &&& base + r * (kp * width) <= usize::MAX
            },
        }
    }

    /// The strip holds, for `lanes` lanes and `depth` depths, the values `v` at the given
    /// origin.
    pub open spec fn holds<T>(
        self,
        buf: Seq<T>,
        v: spec_fn(int, int) -> T,
        x0: int,
        p0: int,
        lanes: int,
        depth: int,
    ) -> bool {
        &&& self.width() > 0
        &&& forall|r: int|
            0 <= r < div_up(lanes, self.width()) ==> {
                &&& self.names(r, lanes, depth)
                &&& (#[trigger] self.panel_spec(r)).holds(
                    buf,
                    v,
                    x0 + r * self.width(),
                    p0,
                    min_int(self.width(), lanes - r * self.width()),
                    depth,
                )
            }
    }

    /// Every packed panel of the strip holds the padding outside its lanes and its depth.
    pub open spec fn padded<T>(self, buf: Seq<T>, pad: T, lanes: int, depth: int) -> bool {
        self matches Strip::Packed { kp, .. } ==> forall|r: int|
            0 <= r < div_up(lanes, self.width()) ==> (#[trigger] self.panel_spec(r)).padded(
                buf,
                pad,
                min_int(self.width(), lanes - r * self.width()),
                depth,
                kp as int,
            )
    }

    /// Panel `r` of the strip.
    pub(crate) fn panel(
        self,
        r: usize,
        Ghost(lanes): Ghost<int>,
        Ghost(depth): Ghost<int>,
    ) -> (p: Panel)
        requires
            self.names(r as int, lanes, depth),
        ensures
            p == self.panel_spec(r as int),
    {
        match self {
            Strip::Strided { l, x0, p0, width } => {
                Panel::Strided { l, x0: x0 + r * width, p0 }
            },
            Strip::Packed { base, width, q, kp } => {
                Panel::Packed { base: base + r * (kp * width), width, q }
            },
        }
    }
}

/// Append the packed panels of a block to `dst`: `lanes` lanes from `(x0, p0)` on, `kc` deep.
pub(crate) fn pack_strip<T: Copy>(
    dst: &mut Vec<T>,
    src: &[T],
    l: Layout,
    x0: usize,
    p0: usize,
    lanes: usize,
    kc: usize,
    width: usize,
    q: usize,
    pad: T,
    Ghost(v): Ghost<spec_fn(int, int) -> T>,
) -> (strip: Strip)
    requires
        q > 0,
        width > 0,
        lanes > 0,
        kc > 0,
        round_up(lanes as int, width as int) * round_up(kc as int, q as int) <= usize::MAX,
        x0 + lanes <= usize::MAX,
        p0 + kc <= usize::MAX,
        forall|x: int, p: int|
            0 <= x < x0 + lanes && 0 <= p < p0 + kc ==> 0 <= #[trigger] l.idx(x, p) < src@.len()
                && src@[l.idx(x, p)] == v(x, p),
    ensures
        final(dst)@.len() == old(dst)@.len() + round_up(lanes as int, width as int) * round_up(
            kc as int,
            q as int,
        ),
        forall|t: int| 0 <= t < old(dst)@.len() ==> #[trigger] final(dst)@[t] == old(dst)@[t],
        strip == (Strip::Packed {
            base: old(dst)@.len() as usize,
            width,
            q,
            kp: round_up(kc as int, q as int) as usize,
        }),
        old(dst)@.len() <= usize::MAX,
        round_up(kc as int, q as int) <= usize::MAX,
        strip.holds(final(dst)@, v, x0 as int, p0 as int, lanes as int, kc as int),
        strip.padded(final(dst)@, pad, lanes as int, kc as int),
{
    let ghost ku = round_up(kc as int, q as int);
    let ghost total = div_up(lanes as int, width as int);
    let ghost base = dst@.len() as int;
    let ghost prefix = dst@;
    proof {
        lemma_div_up(kc as int, q as int);
        lemma_div_up(lanes as int, width as int);
        assert(ku <= (total * width) * ku) by (nonlinear_arith)
            requires
                total * width >= 1,
                ku >= 0,
        ;
        assert(ku * width <= (total * width) * ku) by (nonlinear_arith)
            requires
                total >= 1,
                width >= 0,
                ku >= 0,
        ;
    }
    let kp: usize = next_multiple_of(kc, q);
    let strip: Strip = Strip::Packed { base: dst.len(), width, q, kp };
    let mut lane: usize = 0;
    let mut r: usize = 0;
    while lane < lanes
        invariant
            lane <= lanes,
            lane == min_int(r * width, lanes as int),
            r <= total,
            total == div_up(lanes as int, width as int),
            (total - 1) * width < lanes <= total * width,
            ku == round_up(kc as int, q as int),
            kp == ku,
            ku * width <= usize::MAX,
            total * width * ku <= usize::MAX,
            q > 0,
            width > 0,
            kc > 0,
            x0 + lanes <= usize::MAX,
            p0 + kc <= usize::MAX,
            base == prefix.len(),
            base <= usize::MAX,
            strip == (Strip::Packed { base: base as usize, width, q, kp }),
            dst@.len() == base + r * (ku * width),
            forall|t: int| 0 <= t < base ==> #[trigger] dst@[t] == prefix[t],
            forall|x: int, p: int|
                0 <= x < x0 + lanes && 0 <= p < p0 + kc ==> 0 <= #[trigger] l.idx(x, p)
                    < src@.len() && src@[l.idx(x, p)] == v(x, p),
            forall|g: int|
                0 <= g < r ==> {
                    &&& strip.names(g, lanes as int, kc as int)
                    &&& (#[trigger] strip.panel_spec(g)).holds(
                        dst@,
                        v,
                        x0 + g * width,
                        p0 as int,
                        min_int(width as int, lanes - g * width),
                        kc as int,
                    )
                    &&& strip.panel_spec(g).padded(
                        dst@,
                        pad,
                        min_int(width as int, lanes - g * width),
                        kc as int,
                        ku,
                    )
                },
        decreases lanes - lane,
    {
        let eff: usize = min_usize(width, lanes - lane);
        let ghost before = dst@;
        proof {
            assert(lane == r * width);
            lemma_div_up(lanes as int, width as int);
            assert(r < total) by (nonlinear_arith)
                requires
                    r * width < lanes,
                    lanes <= total * width,
                    width > 0,
            ;
            assert(r * (ku * width) >= 0 && (r + 1) * (ku * width) == r * (ku * width) + ku * width
                && (r + 1) * width == r * width + width) by (nonlinear_arith)
                requires
                    r >= 0,
                    ku >= 0,
                    width >= 0,
            ;
        }
        assert(dst.len() == before.len());
        pack_panel(dst, src, l, x0 + lane, p0, eff, kc, width, q, pad);
        proof {
            assert forall|g: int| 0 <= g < r + 1 implies {
                &&& strip.names(g, lanes as int, kc as int)
                &&& (#[trigger] strip.panel_spec(g)).holds(
                    dst@,
                    v,
                    x0 + g * width,
                    p0 as int,
                    min_int(width as int, lanes - g * width),
                    kc as int,
                )
                &&& strip.panel_spec(g).padded(
                    dst@,
                    pad,
                    min_int(width as int, lanes - g * width),
                    kc as int,
                    ku,
                )
            } by {
                let pan = strip.panel_spec(g);
                let w = min_int(width as int, lanes - g * width);
                if g < r {
                    let _ = strip.panel_spec(g);
                    assert(pan.holds(before, v, x0 + g * width, p0 as int, w, kc as int));
                    assert forall|x: int, p: int| 0 <= x < w && 0 <= p < kc implies 0
                        <= #[trigger] pan.idx(x, p) < dst@.len() && dst@[pan.idx(x, p)] == v(
                        x0 + g * width + x,
                        p0 + p,
                    ) by {
                        assert(0 <= pan.idx(x, p) < before.len());
                        assert(dst@[pan.idx(x, p)] == before[pan.idx(x, p)]);
                    }
                    lemma_panel_pad_extend(pan, before, dst@, pad, w, kc as int, ku);
                } else {
                    assert(g == r);
                    assert(strip.names(g, lanes as int, kc as int));
                    assert forall|x: int, p: int| 0 <= x < w && 0 <= p < kc implies 0
                        <= #[trigger] pan.idx(x, p) < dst@.len() && dst@[pan.idx(x, p)] == v(
                        x0 + g * width + x,
                        p0 + p,
                    ) by {
                        lemma_packed_idx(width as int, q as int, kc as int, x, p);
                        assert(pan.idx(x, p) == before.len() + packed_idx(
                            width as int,
                            q as int,
                            x,
                            p,
                        ));
                        assert(src@[l.idx(x0 + lane + x, p0 + p)] == v(x0 + lane + x, p0 + p));
                    }
                    assert forall|x: int, p: int|
                        0 <= x < width && 0 <= p < ku && (x >= w || p >= kc) implies 0
                        <= #[trigger] pan.idx(x, p) < dst@.len() && dst@[pan.idx(x, p)] == pad by {
                        lemma_rounded(kc as int, q as int);
                        lemma_packed_idx(width as int, q as int, ku, x, p);
                        assert(pan.idx(x, p) == before.len() + packed_idx(
                            width as int,
                            q as int,
                            x,
                            p,
                        ));
                    }
                }
            }
        }
        lane = lane + eff;
        r = r + 1;
    }
    proof {
        assert(r >= total) by (nonlinear_arith)
            requires
                r * width >= lanes,
                (total - 1) * width < lanes,
                width > 0,
        ;
        assert(total * (ku * width) == (total * width) * ku) by (nonlinear_arith);
    }
    strip
}

/// Appending to a buffer leaves the padding of a panel as it was.
proof fn lemma_panel_pad_extend<T>(
    pan: Panel,
    b1: Seq<T>,
    b2: Seq<T>,
    pad: T,
    lanes: int,
    depth: int,
    kp: int,
)
    requires
        pan.padded(b1, pad, lanes, depth, kp),
        b1.len() <= b2.len(),
        forall|t: int| 0 <= t < b1.len() ==> #[trigger] b2[t] == b1[t],
    ensures
        pan.padded(b2, pad, lanes, depth, kp),
{
    if let Panel::Packed { width, .. } = pan {
        assert forall|x: int, p: int|
            0 <= x < width && 0 <= p < kp && (x >= lanes || p >= depth) implies 0
            <= #[trigger] pan.idx(x, p) < b2.len() && b2[pan.idx(x, p)] == pad by {
            assert(b2[pan.idx(x, p)] == b1[pan.idx(x, p)]);
        }
    }
}

/// Appending to a buffer leaves the padding of the strips in it as it was.
pub proof fn lemma_strip_pad_extend<T>(
    strip: Strip,
    b1: Seq<T>,
    b2: Seq<T>,
    pad: T,
    lanes: int,
    depth: int,
)
    requires
        strip.padded(b1, pad, lanes, depth),
        b1.len() <= b2.len(),
        forall|t: int| 0 <= t < b1.len() ==> #[trigger] b2[t] == b1[t],
    ensures
        strip.padded(b2, pad, lanes, depth),
{
    if let Strip::Packed { kp, .. } = strip {
        let w = strip.width();
        assert forall|r: int| 0 <= r < div_up(lanes, w) implies (#[trigger] strip.panel_spec(
            r,
        )).padded(b2, pad, min_int(w, lanes - r * w), depth, kp as int) by {
            lemma_panel_pad_extend(
                strip.panel_spec(r),
                b1,
                b2,
                pad,
                min_int(w, lanes - r * w),
                depth,
                kp as int,
            );
        }
    }
}

/// Appending to a buffer leaves the strips in it as they were.
pub proof fn lemma_strip_extend<T>(
    strip: Strip,
    b1: Seq<T>,
    b2: Seq<T>,
    v: spec_fn(int, int) -> T,
    x0: int,
    p0: int,
    lanes: int,
    depth: int,
)
    requires
        strip.holds(b1, v, x0, p0, lanes, depth),
        b1.len() <= b2.len(),
        forall|t: int| 0 <= t < b1.len() ==> #[trigger] b2[t] == b1[t],
    ensures
        strip.holds(b2, v, x0, p0, lanes, depth),
{
    let w = strip.width();
    assert forall|r: int| 0 <= r < div_up(lanes, w) implies {
        &&& strip.names(r, lanes, depth)
        &&& (#[trigger] strip.panel_spec(r)).holds(
            b2,
            v,
            x0 + r * w,
            p0,
            min_int(w, lanes - r * w),
            depth,
        )
    } by {
        let pan = strip.panel_spec(r);
        let lr = min_int(w, lanes - r * w);
        assert(pan.holds(b1, v, x0 + r * w, p0, lr, depth));
        assert forall|x: int, p: int| 0 <= x < lr && 0 <= p < depth implies 0 <= #[trigger] pan.idx(
            x,
            p,
        ) < b2.len() && b2[pan.idx(x, p)] == v(x0 + r * w + x, p0 + p) by {
            assert(b2[pan.idx(x, p)] == b1[pan.idx(x, p)]);
        }
    }
}

/// A strided view that fits its slice can be read in place.
pub proof fn lemma_strip_strided<T>(
    l: Layout,
    buf: Seq<T>,
    v: spec_fn(int, int) -> T,
    rows: int,
    depths: int,
    x0: usize,
    p0: usize,
    lanes: int,
    depth: int,
    width: usize,
)
    requires
        width > 0,
        lanes > 0,
        depth > 0,
        x0 + lanes <= rows <= usize::MAX,
        p0 + depth <= depths <= usize::MAX,
        buf.len() <= usize::MAX,
        l.fits(rows, depths, buf.len() as int),
        forall|x: int, p: int|
            0 <= x < rows && 0 <= p < depths ==> buf[#[trigger] l.idx(x, p)] == v(x, p),
    ensures
        (Strip::Strided { l, x0, p0, width }).holds(buf, v, x0 as int, p0 as int, lanes, depth),
{
    let strip = Strip::Strided { l, x0, p0, width };
    let w = width as int;
    assert forall|r: int| 0 <= r < div_up(lanes, w) implies {
        &&& strip.names(r, lanes, depth)
        &&& (#[trigger] strip.panel_spec(r)).holds(
            buf,
            v,
            x0 + r * w,
            p0 as int,
            min_int(w, lanes - r * w),
            depth,
        )
    } by {
        lemma_div_up(lanes, w);
        let d = div_up(lanes, w);
        assert(0 <= r * w < lanes) by (nonlinear_arith)
            requires
                0 <= r <= d - 1,
                (d - 1) * w < lanes,
                w > 0,
        ;
        let pan = strip.panel_spec(r);
        assert(pan == (Panel::Strided { l, x0: (x0 + r * w) as usize, p0 }));
        let lr = min_int(w, lanes - r * w);
        assert forall|x: int, p: int| 0 <= x < lr && 0 <= p < depth implies 0 <= #[trigger] pan.idx(
            x,
            p,
        ) < buf.len() && buf[pan.idx(x, p)] == v(x0 + r * w + x, p0 + p) by {
            assert(pan.idx(x, p) == l.idx(x0 + r * w + x, p0 + p));
        }
    }
}

} // verus!
