//! Walking the elements of a strided output, one at a time.

use vstd::prelude::*;

use crate::dispatch::written;
use crate::layout::Layout;

verus! {

/// What is done with one element of an output.
pub trait Cell<O: Copy> {
    /// The elements that `update` takes.
    spec fn takes(&self, i: int, j: int) -> bool;

    /// The values that element `(i, j)` may have afterwards.
    spec fn gives(&self, i: int, j: int, before: O, after: O) -> bool;

    fn update(&self, i: usize, j: usize, before: O) -> (after: O)
        requires
            self.takes(i as int, j as int),
        ensures
            self.gives(i as int, j as int, before, after),
    ;
}

/// Update every element of an `m x n` view, column by column.
pub fn for_each_cell<O: Copy, G: Cell<O>>(c: &mut [O], lc: Layout, m: usize, n: usize, g: &G)
    requires
        lc.fits(m as int, n as int, old(c)@.len() as int),
        lc.distinct(m as int, n as int),
        forall|i: int, j: int| 0 <= i < m && 0 <= j < n ==> #[trigger] g.takes(i, j),
    ensures
        written(
            old(c)@,
            final(c)@,
            lc,
            m as int,
            n as int,
            |i: int, j: int, x: O, y: O| g.gives(i, j, x, y),
        ),
{
    let ghost c0 = c@;
    let mut j: usize = 0;
    while j < n
        invariant
            j <= n,
            c@.len() == c0.len(),
            lc.fits(m as int, n as int, c0.len() as int),
            lc.distinct(m as int, n as int),
            forall|i: int, j: int| 0 <= i < m && 0 <= j < n ==> #[trigger] g.takes(i, j),
            forall|x: int, y: int|
                0 <= x < m && 0 <= y < n ==> if y < j {
                    g.gives(x, y, c0[lc.idx(x, y)], c@[#[trigger] lc.idx(x, y)])
                } else {
                    c@[lc.idx(x, y)] == c0[lc.idx(x, y)]
                },
            forall|x: int|
                0 <= x < c0.len() && !lc.covers(m as int, n as int, x) ==> #[trigger] c@[x]
                    == c0[x],
        decreases n - j,
    {
        let mut i: usize = 0;
        while i < m
            invariant
                i <= m,
                j < n,
                c@.len() == c0.len(),
                lc.fits(m as int, n as int, c0.len() as int),
                lc.distinct(m as int, n as int),
                forall|i: int, j: int| 0 <= i < m && 0 <= j < n ==> #[trigger] g.takes(i, j),
                forall|x: int, y: int|
                    0 <= x < m && 0 <= y < n ==> if y < j || (y == j && x < i) {
                        g.gives(x, y, c0[lc.idx(x, y)], c@[#[trigger] lc.idx(x, y)])
                    } else {
                        c@[lc.idx(x, y)] == c0[lc.idx(x, y)]
                    },
                forall|x: int|
                    0 <= x < c0.len() && !lc.covers(m as int, n as int, x) ==> #[trigger] c@[x]
                        == c0[x],
            decreases m - i,
        {
            assert(0 <= lc.idx(i as int, j as int) < c.len());
            assert(0 <= lc.idx(i as int, 0) < c.len());
            assert(0 <= lc.idx(0, j as int) < c.len());
            let at: usize = lc.at(i, j);
            assert(g.takes(i as int, j as int));
            let ghost before = c@;
            c[at] = g.update(i, j, c[at]);
            proof {
                assert forall|x: int, y: int| 0 <= x < m && 0 <= y < n implies if y < j || (y == j
                    && x < i + 1) {
                    g.gives(x, y, c0[lc.idx(x, y)], c@[#[trigger] lc.idx(x, y)])
                } else {
                    c@[lc.idx(x, y)] == c0[lc.idx(x, y)]
                } by {
                    if x == i && y == j {
                    } else {
                        assert(lc.idx(x, y) != lc.idx(i as int, j as int));
                        assert(c@[lc.idx(x, y)] == before[lc.idx(x, y)]);
                    }
                }
                assert forall|x: int|
                    0 <= x < c0.len() && !lc.covers(m as int, n as int, x) implies #[trigger] c@[x]
                    == c0[x] by {
                    assert(x != at);
                    assert(c@[x] == before[x]);
                }
            }
            i = i + 1;
        }
        j = j + 1;
    }
}

} // verus!
