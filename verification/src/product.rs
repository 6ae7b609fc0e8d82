//! The mathematical model of one product `C <- alpha*A*B + beta*C`, and the microtile that
//! advances a rectangle of its output by one depth slice.

use vstd::arithmetic::div_mod::*;
use vstd::arithmetic::mul::*;
use vstd::prelude::*;

use crate::arith::{div_up, min_int};
use crate::kernel::{
    blend, blend_status, chain, dot_range, scaled, AlphaStatus, BetaStatus, Epilogue, KernelFamily,
};
use crate::layout::Layout;
use crate::panel::Panel;
use crate::scalar::Scalar;

verus! {

/// One product: the operands as functions of their indices, the scales, the output as it was
/// and the depth `kc` of a slice.
#[verifier::reject_recursive_types(F)]
#[verifier::reject_recursive_types(E)]
pub struct Product<F: KernelFamily, E: Epilogue<F>> {
    pub m: int,
    pub n: int,
    pub k: int,
    pub kc: int,
    /// Row `i` of the left operand at depth `p`, as `a(i, p)`.
    pub a: spec_fn(int, int) -> F::Lhs,
    /// Column `j` of the right operand at depth `p`, as `b(j, p)`.
    pub b: spec_fn(int, int) -> F::Rhs,
    pub alpha: F::Acc,
    pub beta: F::Acc,
    /// The output's layout and its contents before the product.
    pub lc: Layout,
    pub c0: Seq<F::Out>,
    pub epi: E,
}

/// The arithmetic of a product: everything that an output's value depends on, apart from the
/// epilogue.
#[verifier::reject_recursive_types(F)]
pub struct Contraction<F: KernelFamily> {
    pub k: int,
    /// Depth of a slice.
    pub kc: int,
    /// Row `i` of the left operand at depth `p`, as `a(i, p)`.
    pub a: spec_fn(int, int) -> F::Lhs,
    /// Column `j` of the right operand at depth `p`, as `b(j, p)`.
    pub b: spec_fn(int, int) -> F::Rhs,
    pub alpha: F::Acc,
    pub beta: F::Acc,
}

impl<F: KernelFamily> Contraction<F> {
    /// The number of depth slices.
    pub open spec fn slices(self) -> int {
        div_up(self.k, self.kc)
    }

    /// The accumulator of output `(i, j)` over depth slice `t`.
    pub open spec fn slice_dot(self, i: int, j: int, t: int) -> F::Acc {
        dot_range::<F>(
            |p: int| (self.a)(i, p),
            |p: int| (self.b)(j, p),
            t * self.kc,
            min_int((t + 1) * self.kc, self.k),
        )
    }

    /// What slice `t >= 1` makes of the stored output `prev`: it adds its own accumulator, or,
    /// in a family that seeds, it goes on from `prev`.
    pub open spec fn resumed(self, i: int, j: int, t: int, prev: F::Out) -> F::Acc {
        if F::seeds_spec() {
            chain::<F>(
                F::widen_spec(prev),
                |p: int| (self.a)(i, p),
                |p: int| (self.b)(j, p),
                t * self.kc,
                min_int((t + 1) * self.kc, self.k),
            )
        } else {
            scaled(self.alpha, self.slice_dot(i, j, t)).plus_spec(F::widen_spec(prev))
        }
    }

    /// Output `(i, j)` after its first `t` slices, from the value `old` that it had before:
    /// the first slice scales `old` by `beta`, the later ones take up what is stored.
    pub open spec fn partial(self, i: int, j: int, t: int, old: F::Out) -> F::Out
        decreases t,
    {
        if t <= 0 {
            old
        } else if t == 1 {
            F::narrow_spec(blend::<F>(self.alpha, self.slice_dot(i, j, 0), self.beta, old))
        } else {
            F::narrow_spec(self.resumed(i, j, t - 1, self.partial(i, j, t - 1, old)))
        }
    }

    /// The accumulator of output `(i, j)` after slice `t` (counted from 0), before it is
    /// stored.
    pub open spec fn staged(self, i: int, j: int, t: int, old: F::Out) -> F::Acc {
        if t <= 0 {
            blend::<F>(self.alpha, self.slice_dot(i, j, 0), self.beta, old)
        } else {
            self.resumed(i, j, t, self.partial(i, j, t, old))
        }
    }

    /// The accumulator of output `(i, j)` after the whole depth, before the epilogue.
    pub open spec fn total(self, i: int, j: int, old: F::Out) -> F::Acc {
        self.staged(i, j, self.slices() - 1, old)
    }
}

impl<F: KernelFamily, E: Epilogue<F>> Product<F, E> {
    /// The arithmetic of the product.
    pub open spec fn con(self) -> Contraction<F> {
        Contraction {
            k: self.k,
            kc: self.kc,
            a: self.a,
            b: self.b,
            alpha: self.alpha,
            beta: self.beta,
        }
    }

    /// The number of depth slices.
    pub open spec fn slices(self) -> int {
        self.con().slices()
    }

    /// What output `(i, j)` may hold after `t` slices.
    pub open spec fn cell(self, i: int, j: int, t: int, v: F::Out) -> bool {
        let old = self.c0[self.lc.idx(i, j)];
        if t < self.slices() {
            v == self.con().partial(i, j, t, old)
        } else {
            self.epi.stores(self.con().total(i, j, old), i, j, v)
        }
    }

    /// The output `c` when element `(i, j)` has gone through `stage(i, j)` slices. Whatever
    /// lies outside the view is as it was.
    pub open spec fn state(self, c: Seq<F::Out>, stage: spec_fn(int, int) -> int) -> bool {
        &&& c.len() == self.c0.len()
        &&& forall|i: int, j: int|
            0 <= i < self.m && 0 <= j < self.n ==> self.cell(
                i,
                j,
                stage(i, j),
                c[#[trigger] self.lc.idx(i, j)],
            )
        &&& forall|x: int|
            0 <= x < c.len() && !self.lc.covers(self.m, self.n, x) ==> #[trigger] c[x]
                == self.c0[x]
    }

    /// The product has been computed: every element of the output view holds its result, and
    /// everything else is as it was.
    pub open spec fn done(self, c: Seq<F::Out>) -> bool {
        &&& c.len() == self.c0.len()
        &&& forall|i: int, j: int|
            0 <= i < self.m && 0 <= j < self.n ==> self.epi.stores(
                self.con().total(i, j, self.c0[self.lc.idx(i, j)]),
                i,
                j,
                c[#[trigger] self.lc.idx(i, j)],
            )
        &&& forall|x: int|
            0 <= x < c.len() && !self.lc.covers(self.m, self.n, x) ==> #[trigger] c[x]
                == self.c0[x]
    }

    /// The sizes are positive, the output view is inside its slice without aliasing itself,
    /// and the epilogue takes every accumulator at every place.
    pub open spec fn ready(self) -> bool {
        &&& 0 < self.m <= usize::MAX
        &&& 0 < self.n <= usize::MAX
        &&& 0 < self.k <= usize::MAX
        &&& 0 < self.kc
        &&& self.lc.fits(self.m, self.n, self.c0.len() as int)
        &&& self.lc.distinct(self.m, self.n)
        &&& forall|v: F::Acc, i: int, j: int|
            0 <= i < self.m && 0 <= j < self.n ==> #[trigger] self.epi.accepts(v, i, j)
    }
}

/// Two descriptions of the same progress are interchangeable.
pub proof fn lemma_state_ext<F: KernelFamily, E: Epilogue<F>>(
    prod: Product<F, E>,
    c: Seq<F::Out>,
    s1: spec_fn(int, int) -> int,
    s2: spec_fn(int, int) -> int,
)
    requires
        prod.state(c, s1),
        forall|i: int, j: int|
            0 <= i < prod.m && 0 <= j < prod.n ==> #[trigger] s1(i, j) == s2(i, j),
    ensures
        prod.state(c, s2),
{
    assert forall|i: int, j: int| 0 <= i < prod.m && 0 <= j < prod.n implies prod.cell(
        i,
        j,
        s2(i, j),
        c[#[trigger] prod.lc.idx(i, j)],
    ) by {
        assert(s1(i, j) == s2(i, j));
    }
}

/// Storing one element's next stage changes that element's progress and no other's.
proof fn lemma_state_put<F: KernelFamily, E: Epilogue<F>>(
    prod: Product<F, E>,
    c: Seq<F::Out>,
    stage: spec_fn(int, int) -> int,
    i0: int,
    j0: int,
    v: F::Out,
    t: int,
)
    requires
        prod.ready(),
        prod.state(c, stage),
        0 <= i0 < prod.m,
        0 <= j0 < prod.n,
        prod.cell(i0, j0, t, v),
    ensures
        prod.state(
            c.update(prod.lc.idx(i0, j0), v),
            |i: int, j: int|
                if i == i0 && j == j0 {
                    t
                } else {
                    stage(i, j)
                },
        ),
{
    let x0 = prod.lc.idx(i0, j0);
    assert(0 <= x0 < c.len());
    let c2 = c.update(x0, v);
    let s2 = |i: int, j: int|
        if i == i0 && j == j0 {
            t
        } else {
            stage(i, j)
        };
    assert forall|i: int, j: int| 0 <= i < prod.m && 0 <= j < prod.n implies prod.cell(
        i,
        j,
        s2(i, j),
        c2[#[trigger] prod.lc.idx(i, j)],
    ) by {
        assert(0 <= prod.lc.idx(i, j) < c.len());
        if i == i0 && j == j0 {
        } else {
            assert(prod.lc.idx(i, j) != x0);
            assert(prod.cell(i, j, stage(i, j), c[prod.lc.idx(i, j)]));
        }
    }
    assert forall|x: int| 0 <= x < c2.len() && !prod.lc.covers(
        prod.m,
        prod.n,
        x,
    ) implies #[trigger] c2[x] == prod.c0[x] by {
        assert(x != x0);
        assert(c2[x] == c[x]);
    }
}

/// When every element has gone through every slice, the product is done.
pub proof fn lemma_state_done<F: KernelFamily, E: Epilogue<F>>(
    prod: Product<F, E>,
    c: Seq<F::Out>,
    stage: spec_fn(int, int) -> int,
)
    requires
        prod.state(c, stage),
        forall|i: int, j: int|
            0 <= i < prod.m && 0 <= j < prod.n ==> #[trigger] stage(i, j) >= prod.slices(),
    ensures
        prod.done(c),
{
    assert forall|i: int, j: int| 0 <= i < prod.m && 0 <= j < prod.n implies prod.epi.stores(
        prod.con().total(i, j, prod.c0[prod.lc.idx(i, j)]),
        i,
        j,
        c[#[trigger] prod.lc.idx(i, j)],
    ) by {
        assert(stage(i, j) >= prod.slices());
        assert(prod.cell(i, j, stage(i, j), c[prod.lc.idx(i, j)]));
    }
}

/// The progress after a rectangle of rows `i0..i1` and columns `j0..j1` has been advanced to
/// stage `t`.
pub open spec fn advanced(
    stage: spec_fn(int, int) -> int,
    i0: int,
    i1: int,
    j0: int,
    j1: int,
    t: int,
) -> spec_fn(int, int) -> int {
    |i: int, j: int|
        if i0 <= i < i1 && j0 <= j < j1 {
            t
        } else {
            stage(i, j)
        }
}

/// One microtile: advance the `mr_eff x nr_eff` outputs at `(i0, j0)` by depth slice `t`,
/// which starts at depth `pc` and is `kc_eff` deep. The epilogue is applied on the last slice.
pub(crate) fn microtile<F: KernelFamily, E: Epilogue<F>>(
    abuf: &[F::Lhs],
    apan: Panel,
    bbuf: &[F::Rhs],
    bpan: Panel,
    c: &mut [F::Out],
    lc: Layout,
    i0: usize,
    j0: usize,
    mr_eff: usize,
    nr_eff: usize,
    kc_eff: usize,
    alpha: F::Acc,
    beta: F::Acc,
    ash: AlphaStatus,
    bst: BetaStatus,
    first: bool,
    last: bool,
    epi: &E,
    Ghost(prod): Ghost<Product<F, E>>,
    Ghost(stage): Ghost<spec_fn(int, int) -> int>,
    Ghost(t): Ghost<int>,
)
    requires
        prod.ready(),
        prod.state(old(c)@, stage),
        prod.lc == lc,
        prod.epi == *epi,
        prod.alpha == alpha,
        0 <= t < prod.slices(),
        kc_eff == min_int((t + 1) * prod.kc, prod.k) - t * prod.kc,
        first <==> t == 0,
        last <==> t == prod.slices() - 1,
        ash is One <==> alpha.is_one_spec(),
        t == 0 ==> beta == prod.beta && (bst is Zero <==> beta.is_zero_spec()) && (bst is One
            <==> !beta.is_zero_spec() && beta.is_one_spec()),
        t > 0 ==> bst is One,
        i0 + mr_eff <= prod.m,
        j0 + nr_eff <= prod.n,
        apan.holds(abuf@, prod.a, i0 as int, t * prod.kc, mr_eff as int, kc_eff as int),
        bpan.holds(bbuf@, prod.b, j0 as int, t * prod.kc, nr_eff as int, kc_eff as int),
        apan is Strided ==> apan->x0 + mr_eff <= usize::MAX && apan->p0 + kc_eff <= usize::MAX,
        bpan is Strided ==> bpan->x0 + nr_eff <= usize::MAX && bpan->p0 + kc_eff <= usize::MAX,
        forall|i: int, j: int|
            i0 <= i < i0 + mr_eff && j0 <= j < j0 + nr_eff ==> #[trigger] stage(i, j) == t,
    ensures
        prod.state(
            final(c)@,
            advanced(
                stage,
                i0 as int,
                i0 + mr_eff,
                j0 as int,
                j0 + nr_eff,
                t + 1,
            ),
        ),
{
    let ghost pc = t * prod.kc;
    let mut jj: usize = 0;
    proof {
        lemma_state_ext(
            prod,
            c@,
            stage,
            advanced(stage, i0 as int, i0 + mr_eff, j0 as int, j0 as int, t + 1),
        );
    }
    while jj < nr_eff
        invariant
            jj <= nr_eff,
            prod.ready(),
            prod.lc == lc,
            prod.epi == *epi,
            prod.alpha == alpha,
            0 <= t < prod.slices(),
            pc == t * prod.kc,
            kc_eff == min_int((t + 1) * prod.kc, prod.k) - pc,
            first <==> t == 0,
            last <==> t == prod.slices() - 1,
            ash is One <==> alpha.is_one_spec(),
            t == 0 ==> beta == prod.beta && (bst is Zero <==> beta.is_zero_spec()) && (bst is One
                <==> !beta.is_zero_spec() && beta.is_one_spec()),
            t > 0 ==> bst is One,
            i0 + mr_eff <= prod.m,
            j0 + nr_eff <= prod.n,
            apan.holds(abuf@, prod.a, i0 as int, pc, mr_eff as int, kc_eff as int),
            bpan.holds(bbuf@, prod.b, j0 as int, pc, nr_eff as int, kc_eff as int),
            apan is Strided ==> apan->x0 + mr_eff <= usize::MAX && apan->p0 + kc_eff
                <= usize::MAX,
            bpan is Strided ==> bpan->x0 + nr_eff <= usize::MAX && bpan->p0 + kc_eff
                <= usize::MAX,
            forall|i: int, j: int|
                i0 <= i < i0 + mr_eff && j0 <= j < j0 + nr_eff ==> #[trigger] stage(i, j) == t,
            prod.state(
                c@,
                advanced(stage, i0 as int, i0 + mr_eff, j0 as int, j0 + jj, t + 1),
            ),
        decreases nr_eff - jj,
    {
        let ghost cols = advanced(stage, i0 as int, i0 + mr_eff, j0 as int, j0 + jj, t + 1);
        let ghost j = j0 + jj;
        let mut ii: usize = 0;
        proof {
            lemma_state_ext(prod, c@, cols, advanced(cols, i0 as int, i0 as int, j, j + 1, t + 1));
        }
        while ii < mr_eff
            invariant
                ii <= mr_eff,
                jj < nr_eff,
                j == j0 + jj,
                prod.ready(),
                prod.lc == lc,
                prod.epi == *epi,
                prod.alpha == alpha,
                0 <= t < prod.slices(),
                pc == t * prod.kc,
                kc_eff == min_int((t + 1) * prod.kc, prod.k) - pc,
                first <==> t == 0,
                last <==> t == prod.slices() - 1,
                ash is One <==> alpha.is_one_spec(),
                t == 0 ==> beta == prod.beta && (bst is Zero <==> beta.is_zero_spec()) && (
                bst is One <==> !beta.is_zero_spec() && beta.is_one_spec()),
                t > 0 ==> bst is One,
                i0 + mr_eff <= prod.m,
                j0 + nr_eff <= prod.n,
                apan.holds(abuf@, prod.a, i0 as int, pc, mr_eff as int, kc_eff as int),
                bpan.holds(bbuf@, prod.b, j0 as int, pc, nr_eff as int, kc_eff as int),
                apan is Strided ==> apan->x0 + mr_eff <= usize::MAX && apan->p0 + kc_eff
                    <= usize::MAX,
                bpan is Strided ==> bpan->x0 + nr_eff <= usize::MAX && bpan->p0 + kc_eff
                    <= usize::MAX,
                forall|i: int, j: int|
                    i0 <= i < i0 + mr_eff && j0 <= j < j0 + nr_eff ==> #[trigger] stage(i, j)
                        == t,
                cols == advanced(stage, i0 as int, i0 + mr_eff, j0 as int, j0 + jj, t + 1),
                prod.state(c@, advanced(cols, i0 as int, i0 + ii, j, j + 1, t + 1)),
            decreases mr_eff - ii,
        {
            let ghost i = i0 + ii;
            let ghost row = |p: int| (prod.a)(i, p);
            let ghost col = |p: int| (prod.b)(j, p);
            assert(0 <= lc.idx(i, j) < c.len());
            assert(0 <= lc.idx(i, 0) < c.len());
            assert(0 <= lc.idx(0, j) < c.len());
            let at: usize = lc.at(i0 + ii, j0 + jj);
            let resume: bool = !first && F::seeds();
            let init: F::Acc = if resume {
                F::widen(c[at])
            } else {
                F::Acc::zero()
            };
            let mut acc: F::Acc = init;
            let mut p: usize = 0;
            while p < kc_eff
                invariant
                    p <= kc_eff,
                    ii < mr_eff,
                    jj < nr_eff,
                    i == i0 + ii,
                    j == j0 + jj,
                    row == (|p: int| (prod.a)(i, p)),
                    col == (|p: int| (prod.b)(j, p)),
                    i0 + mr_eff <= prod.m <= usize::MAX,
                    j0 + nr_eff <= prod.n <= usize::MAX,
                    apan.holds(abuf@, prod.a, i0 as int, pc, mr_eff as int, kc_eff as int),
                    bpan.holds(bbuf@, prod.b, j0 as int, pc, nr_eff as int, kc_eff as int),
                    apan is Strided ==> apan->x0 + mr_eff <= usize::MAX && apan->p0 + kc_eff
                        <= usize::MAX,
                    bpan is Strided ==> bpan->x0 + nr_eff <= usize::MAX && bpan->p0 + kc_eff
                        <= usize::MAX,
                    acc == chain::<F>(init, row, col, pc, pc + p),
                decreases kc_eff - p,
            {
                let l: F::Lhs = apan.read(
                    abuf,
                    ii,
                    p,
                    Ghost(prod.a),
                    Ghost(i0 as int),
                    Ghost(pc),
                    Ghost(mr_eff as int),
                    Ghost(kc_eff as int),
                );
                let r: F::Rhs = bpan.read(
                    bbuf,
                    jj,
                    p,
                    Ghost(prod.b),
                    Ghost(j0 as int),
                    Ghost(pc),
                    Ghost(nr_eff as int),
                    Ghost(kc_eff as int),
                );
                acc = F::madd(acc, l, r);
                p = p + 1;
            }
            let v: F::Acc = if resume {
                acc
            } else {
                assert(acc == prod.con().slice_dot(i, j, t));
                blend_status::<F>(alpha, acc, beta, c[at], ash, bst)
            };
            proof {
                let st = advanced(cols, i0 as int, i0 + ii, j, j + 1, t + 1);
                assert(stage(i, j) == t);
                assert(st(i, j) == t);
                let old_v = prod.c0[lc.idx(i, j)];
                assert(prod.cell(i, j, st(i, j), c@[lc.idx(i, j)]));
                assert(c@[lc.idx(i, j)] == prod.con().partial(i, j, t, old_v));
                assert(v == prod.con().staged(i, j, t, old_v));
            }
            let o: F::Out = if last {
                assert(epi.accepts(v, i, j));
                epi.apply(v, i0 + ii, j0 + jj)
            } else {
                F::narrow(v)
            };
            proof {
                let st = advanced(cols, i0 as int, i0 + ii, j, j + 1, t + 1);
                let old_v = prod.c0[lc.idx(i, j)];
                if !last {
                    assert(prod.con().partial(i, j, t + 1, old_v) == F::narrow_spec(v));
                }
                assert(prod.cell(i, j, t + 1, o));
                lemma_state_put(prod, c@, st, i, j, o, t + 1);
                lemma_state_ext(
                    prod,
                    c@.update(lc.idx(i, j), o),
                    |x: int, y: int|
                        if x == i && y == j {
                            t + 1
                        } else {
                            st(x, y)
                        },
                    advanced(cols, i0 as int, i0 + ii + 1, j, j + 1, t + 1),
                );
            }
            c[at] = o;
            ii = ii + 1;
        }
        proof {
            lemma_state_ext(
                prod,
                c@,
                advanced(cols, i0 as int, i0 + mr_eff, j, j + 1, t + 1),
                advanced(stage, i0 as int, i0 + mr_eff, j0 as int, j0 + jj + 1, t + 1),
            );
        }
        jj = jj + 1;
    }
}

} // verus!
