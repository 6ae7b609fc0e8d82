//! A whole right operand, packed once into the order in which the driver reads it: column
//! blocks outermost, then depth slices, then the panels of a slice.

use vstd::arithmetic::div_mod::*;
use vstd::arithmetic::mul::*;
use vstd::prelude::*;

use crate::arith::{div_up, lemma_div_up, lemma_div_up_least, min_int, min_usize, round_up};
use crate::layout::{lemma_transposed, lemma_transposed_idx, Layout};
use crate::panel::{lemma_strip_extend, lemma_strip_pad_extend, pack_strip, Strip};

verus! {

/// The geometry of a packed right operand.
#[derive(Clone, Copy, Debug, PartialEq, Eq, Structural)]
pub struct Packing {
    /// Depth and columns of the operand.
    pub k: usize,
    pub n: usize,
    /// Depth of a slice and columns of a block.
    pub kc: usize,
    pub nc: usize,
    /// Columns of a panel.
    pub nr: usize,
    /// Panels are padded to a multiple of this depth.
    pub q: usize,
}

impl Packing {
    /// Column blocks hold whole panels. A depth that is padded is not split.
    pub open spec fn valid(self) -> bool {
        &&& self.k > 0
        &&& self.n > 0
        &&& self.kc > 0
        &&& self.nc > 0
        &&& self.nr > 0
        &&& self.q > 0
        &&& self.nc % self.nr == 0
        &&& self.q == 1 || self.kc >= self.k
    }

    /// Elements of the packed operand, padding included.
    pub open spec fn total(self) -> int {
        round_up(self.n as int, self.nr as int) * round_up(self.k as int, self.q as int)
    }

    /// Columns of column block `jb`.
    pub open spec fn cols(self, jb: int) -> int {
        min_int(self.nc as int, self.n - jb * self.nc)
    }

    /// Depth of slice `t`.
    pub open spec fn depth(self, t: int) -> int {
        min_int(self.kc as int, self.k - t * self.kc)
    }

    /// Where the panels of column block `jb` at depth slice `t` start.
    pub open spec fn start(self, jb: int, t: int) -> int {
        jb * self.nc * round_up(self.k as int, self.q as int) + round_up(
            self.cols(jb),
            self.nr as int,
        ) * (t * self.kc)
    }

    /// The panels of column block `jb` at depth slice `t`.
    pub open spec fn strip(self, jb: int, t: int) -> Strip {
        Strip::Packed {
            base: self.start(jb, t) as usize,
            width: self.nr,
            q: self.q,
            kp: round_up(self.depth(t), self.q as int) as usize,
        }
    }

    /// The buffer holds the operand whose column `j` at depth `p` is `v(j, p)`.
    pub open spec fn holds<T>(self, buf: Seq<T>, v: spec_fn(int, int) -> T) -> bool {
        &&& self.valid()
        &&& buf.len() == self.total()
        &&& buf.len() <= usize::MAX
        &&& forall|jb: int, t: int|
            0 <= jb < div_up(self.n as int, self.nc as int) && 0 <= t < div_up(
                self.k as int,
                self.kc as int,
            ) ==> (#[trigger] self.strip(jb, t)).holds(
                buf,
                v,
                jb * self.nc,
                t * self.kc,
                self.cols(jb),
                self.depth(t),
            )
    }

    /// Every panel of the buffer holds the padding outside its columns and its depth.
    pub open spec fn padded<T>(self, buf: Seq<T>, pad: T) -> bool {
        forall|jb: int, t: int|
            0 <= jb < div_up(self.n as int, self.nc as int) && 0 <= t < div_up(
                self.k as int,
                self.kc as int,
            ) ==> (#[trigger] self.strip(jb, t)).padded(buf, pad, self.cols(jb), self.depth(t))
    }
}

/// A packed slice starts inside the buffer, and its padded depth is that of the slice.
pub proof fn lemma_packing_start(g: Packing, jb: int, t: int)
    requires
        g.valid(),
        g.total() <= usize::MAX,
        0 <= jb < div_up(g.n as int, g.nc as int),
        0 <= t < div_up(g.k as int, g.kc as int),
    ensures
        0 <= jb * g.nc < g.n,
        0 <= t * g.kc < g.k,
        0 < g.cols(jb) <= g.n,
        0 < g.depth(t) <= g.k,
        0 <= g.start(jb, t) <= g.total(),
        round_up(g.depth(t), g.q as int) <= round_up(g.k as int, g.q as int),
        round_up(g.cols(jb), g.nr as int) <= round_up(g.n as int, g.nr as int),
        round_up(g.cols(jb), g.nr as int) * round_up(g.depth(t), g.q as int) <= g.total(),
        round_up(t * g.kc, g.q as int) == t * g.kc,
        round_up(t * g.kc + g.depth(t), g.q as int) == t * g.kc + round_up(
            g.depth(t),
            g.q as int,
        ),
        round_up(jb * g.nc, g.nr as int) == jb * g.nc,
        round_up(jb * g.nc + g.cols(jb), g.nr as int) == jb * g.nc + round_up(
            g.cols(jb),
            g.nr as int,
        ),
{
    let (k, n, kc, nc, nr, q) = (
        g.k as int,
        g.n as int,
        g.kc as int,
        g.nc as int,
        g.nr as int,
        g.q as int,
    );
    let db = div_up(n, nc);
    let ds = div_up(k, kc);
    lemma_div_up(n, nc);
    lemma_div_up(k, kc);
    assert(0 <= jb * nc < n) by (nonlinear_arith)
        requires
            0 <= jb <= db - 1,
            (db - 1) * nc < n,
            nc > 0,
    ;
    assert(0 <= t * kc < k) by (nonlinear_arith)
        requires
            0 <= t <= ds - 1,
            (ds - 1) * kc < k,
            kc > 0,
    ;
    let jc = jb * nc;
    let pc = t * kc;
    let cols = g.cols(jb);
    let depth = g.depth(t);
    lemma_fundamental_div_mod(nc, nr);
    assert(jb * (nc / nr) * nr == jc) by (nonlinear_arith)
        requires
            nc == nr * (nc / nr),
            jc == jb * nc,
    ;
    lemma_round_up_shift(jc, cols, nr, jb * (nc / nr));
    if q == 1 {
        lemma_round_up_shift(pc, depth, q, pc);
    } else {
        lemma_div_up_least(k, kc, 1);
        assert(t == 0);
        lemma_round_up_shift(pc, depth, q, 0);
    }
    lemma_div_up(n, nr);
    lemma_div_up(k, q);
    lemma_div_up(cols, nr);
    lemma_div_up(depth, q);
    lemma_div_up_least(jc + cols, nr, div_up(n, nr));
    lemma_div_up_least(pc + depth, q, div_up(k, q));
    let kp = round_up(k, q);
    let cn = round_up(cols, nr);
    let nn = round_up(n, nr);
    let dp = round_up(depth, q);
    assert(0 <= jc * kp + cn * pc <= nn * kp) by (nonlinear_arith)
        requires
            0 <= jc,
            0 <= pc,
            jc + cn <= nn,
            0 <= cn,
            pc + dp <= kp,
            0 <= dp,
    ;
    assert(cn * dp <= nn * kp) by (nonlinear_arith)
        requires
            0 <= jc,
            0 <= pc,
            jc + cn <= nn,
            0 <= cn,
            pc + dp <= kp,
            0 <= dp,
    ;
    assert(jb * g.nc * kp == jc * kp);
}

/// Rounding up commutes with adding a multiple.
proof fn lemma_round_up_shift(base: int, x: int, b: int, q: int)
    requires
        b > 0,
        x >= 0,
        q >= 0,
    ensures
        base == q * b ==> round_up(base, b) == base && round_up(base + x, b) == base + round_up(
            x,
            b,
        ),
{
    if base == q * b {
        lemma_fundamental_div_mod(x, b);
        lemma_mod_bound(x, b);
        let d = x / b;
        let e = x % b;
        assert(base + x == (q + d) * b + e) by (nonlinear_arith)
            requires
                base == q * b,
                x == b * d + e,
        ;
        lemma_fundamental_div_mod_converse(base + x, b, q + d, e);
        lemma_fundamental_div_mod_converse(base, b, q, 0);
        assert((q + d) * b == q * b + d * b && (q + d + 1) * b == q * b + (d + 1) * b)
            by (nonlinear_arith);
    }
}

/// Pack the whole `k x n` right operand at `lb`.
pub(crate) fn pack_rhs_full<T: Copy>(
    b: &[T],
    lb: Layout,
    g: Packing,
    pad: T,
    Ghost(v): Ghost<spec_fn(int, int) -> T>,
) -> (buf: Vec<T>)
    requires
        g.valid(),
        g.total() <= usize::MAX,
        lb.fits(g.k as int, g.n as int, b@.len() as int),
        forall|p: int, j: int|
            0 <= p < g.k && 0 <= j < g.n ==> b@[#[trigger] lb.idx(p, j)] == v(j, p),
    ensures
        g.holds(buf@, v),
        g.padded(buf@, pad),
{
    let lt: Layout = lb.transposed();
    proof {
        lemma_transposed(lb, g.k as int, g.n as int, b@.len() as int);
        assert forall|j: int, p: int| 0 <= j < g.n && 0 <= p < g.k implies b@[#[trigger] lt.idx(
            j,
            p,
        )] == v(j, p) by {
            lemma_transposed_idx(lb, j, p);
        }
        lemma_div_up(g.n as int, g.nc as int);
        lemma_div_up(g.k as int, g.kc as int);
    }
    let ghost kp = round_up(g.k as int, g.q as int);
    let ghost blocks = div_up(g.n as int, g.nc as int);
    let ghost slices = div_up(g.k as int, g.kc as int);
    let mut buf: Vec<T> = Vec::new();
    let mut jc: usize = 0;
    let ghost mut jb: int = 0;
    proof {
        lemma_round_up_shift(0, 0, g.nr as int, 0);
        assert(0 * kp == 0);
    }
    while jc < g.n
        invariant
            jc <= g.n,
            0 <= jb,
            jc == min_int(jb * g.nc, g.n as int),
            jb <= blocks,
            blocks == div_up(g.n as int, g.nc as int),
            slices == div_up(g.k as int, g.kc as int),
            (blocks - 1) * g.nc < g.n <= blocks * g.nc,
            (slices - 1) * g.kc < g.k <= slices * g.kc,
            kp == round_up(g.k as int, g.q as int),
            g.valid(),
            g.total() <= usize::MAX,
            lt.fits(g.n as int, g.k as int, b@.len() as int),
            forall|j: int, p: int|
                0 <= j < g.n && 0 <= p < g.k ==> b@[#[trigger] lt.idx(j, p)] == v(j, p),
            buf@.len() == round_up(jc as int, g.nr as int) * kp,
            forall|x: int, t: int|
                0 <= x < jb && 0 <= t < slices ==> (#[trigger] g.strip(x, t)).holds(
                    buf@,
                    v,
                    x * g.nc,
                    t * g.kc,
                    g.cols(x),
                    g.depth(t),
                ) && g.strip(x, t).padded(buf@, pad, g.cols(x), g.depth(t)),
        decreases g.n - jc,
    {
        let nc_eff: usize = min_usize(g.nc, g.n - jc);
        proof {
            assert(jc == jb * g.nc);
            assert(jb < blocks) by (nonlinear_arith)
                requires
                    jb * g.nc < g.n,
                    g.n <= blocks * g.nc,
                    g.nc > 0,
            ;
            assert((jb + 1) * g.nc == jb * g.nc + g.nc) by (nonlinear_arith);
            lemma_div_up(g.k as int, g.kc as int);
            lemma_packing_start(g, jb, 0);
            lemma_round_up_shift(0, 0, g.q as int, 0);
            assert(round_up(nc_eff as int, g.nr as int) * 0 == 0);
        }
        let ghost cn = round_up(nc_eff as int, g.nr as int);
        let mut pc: usize = 0;
        let ghost mut t: int = 0;
        while pc < g.k
            invariant
                pc <= g.k,
                0 <= t <= slices,
                pc == min_int(t * g.kc, g.k as int),
                jc < g.n,
                jc == jb * g.nc,
                0 <= jb < blocks,
                nc_eff == g.cols(jb),
                cn == round_up(nc_eff as int, g.nr as int),
                blocks == div_up(g.n as int, g.nc as int),
                slices == div_up(g.k as int, g.kc as int),
                (slices - 1) * g.kc < g.k <= slices * g.kc,
                kp == round_up(g.k as int, g.q as int),
                g.valid(),
                g.total() <= usize::MAX,
                lt.fits(g.n as int, g.k as int, b@.len() as int),
                forall|j: int, p: int|
                    0 <= j < g.n && 0 <= p < g.k ==> b@[#[trigger] lt.idx(j, p)] == v(j, p),
                buf@.len() == jc * kp + cn * round_up(pc as int, g.q as int),
                forall|x: int, s: int|
                    0 <= x <= jb && 0 <= s < slices && (x < jb || s < t) ==> (#[trigger] g.strip(
                        x,
                        s,
                    )).holds(buf@, v, x * g.nc, s * g.kc, g.cols(x), g.depth(s)) && g.strip(
                        x,
                        s,
                    ).padded(buf@, pad, g.cols(x), g.depth(s)),
            decreases g.k - pc,
        {
            let kc_eff: usize = min_usize(g.kc, g.k - pc);
            let ghost before = buf@;
            proof {
                assert(pc == t * g.kc);
                assert(t < slices) by (nonlinear_arith)
                    requires
                        t * g.kc < g.k,
                        g.k <= slices * g.kc,
                        g.kc > 0,
                ;
                assert((t + 1) * g.kc == t * g.kc + g.kc) by (nonlinear_arith);
                lemma_packing_start(g, jb, t);
                lemma_div_up(nc_eff as int, g.nr as int);
                assert(cn * (pc + round_up(kc_eff as int, g.q as int)) == cn * pc + cn * round_up(
                    kc_eff as int,
                    g.q as int,
                )) by (nonlinear_arith);
                assert(g.start(jb, t) == before.len());
            }
            let strip = pack_strip(
                &mut buf,
                b,
                lt,
                jc,
                pc,
                nc_eff,
                kc_eff,
                g.nr,
                g.q,
                pad,
                Ghost(v),
            );
            proof {
                assert(strip == g.strip(jb, t));
                assert forall|x: int, s: int|
                    0 <= x <= jb && 0 <= s < slices && (x < jb || s < t + 1) implies (
                #[trigger] g.strip(x, s)).holds(
                    buf@,
                    v,
                    x * g.nc,
                    s * g.kc,
                    g.cols(x),
                    g.depth(s),
                ) && g.strip(x, s).padded(buf@, pad, g.cols(x), g.depth(s)) by {
                    if x < jb || s < t {
                        lemma_strip_extend(
                            g.strip(x, s),
                            before,
                            buf@,
                            v,
                            x * g.nc,
                            s * g.kc,
                            g.cols(x),
                            g.depth(s),
                        );
                        lemma_strip_pad_extend(
                            g.strip(x, s),
                            before,
                            buf@,
                            pad,
                            g.cols(x),
                            g.depth(s),
                        );
                    }
                }
                t = t + 1;
            }
            pc = pc + kc_eff;
        }
        proof {
            assert(t >= slices) by (nonlinear_arith)
                requires
                    t * g.kc >= g.k,
                    (slices - 1) * g.kc < g.k,
                    g.kc > 0,
            ;
            assert((jc + cn) * kp == jc * kp + cn * kp) by (nonlinear_arith);
            jb = jb + 1;
        }
        jc = jc + nc_eff;
    }
    proof {
        assert(jb >= blocks) by (nonlinear_arith)
            requires
                jb * g.nc >= g.n,
                (blocks - 1) * g.nc < g.n,
                g.nc > 0,
        ;
    }
    buf
}

} // verus!
