//! Strided matrix layouts: where element `(i, j)` of a view lives in its slice.

use vstd::prelude::*;

verus! {

/// A strided layout: element `(i, j)` lives at slice offset `off + i*rs + j*cs`.
#[derive(Clone, Copy, Debug, PartialEq, Eq, Structural)]
pub struct Layout {
    /// Offset of element `(0, 0)`.
    pub off: usize,
    /// Row stride, in elements.
    pub rs: isize,
    /// Column stride, in elements.
    pub cs: isize,
}

impl Layout {
    /// Slice offset of element `(i, j)`.
    #[verifier::opaque]
    pub open spec fn idx(self, i: int, j: int) -> int {
        self.off + i * self.rs + j * self.cs
    }

    /// Every element of a `rows x cols` view lies inside a slice of `len` elements.
    pub open spec fn fits(self, rows: int, cols: int, len: int) -> bool {
        forall|i: int, j: int|
            0 <= i < rows && 0 <= j < cols ==> 0 <= #[trigger] self.idx(i, j) < len
    }

    /// No two elements of a `rows x cols` view share an offset.
    pub open spec fn distinct(self, rows: int, cols: int) -> bool {
        forall|i: int, j: int, i2: int, j2: int|
            #![trigger self.idx(i, j), self.idx(i2, j2)]
            0 <= i < rows && 0 <= j < cols && 0 <= i2 < rows && 0 <= j2 < cols && self.idx(i, j)
                == self.idx(i2, j2) ==> i == i2 && j == j2
    }

    /// Some element of a `rows x cols` view lives at offset `x`.
    pub open spec fn covers(self, rows: int, cols: int, x: int) -> bool {
        exists|i: int, j: int|
            0 <= i < rows && 0 <= j < cols && #[trigger] self.idx(i, j) == x
    }

    /// The layout of the transposed view.
    pub open spec fn transposed_spec(self) -> Layout {
        Layout { off: self.off, rs: self.cs, cs: self.rs }
    }

    /// The layout of the transposed view: the strides change places, nothing is copied.
    #[verifier::when_used_as_spec(transposed_spec)]
    pub fn transposed(self) -> (r: Layout)
        ensures
            r == self.transposed_spec(),
    {
        Layout { off: self.off, rs: self.cs, cs: self.rs }
    }

    /// The offset of element `(i, j)`.
    pub fn at(self, i: usize, j: usize) -> (r: usize)
        requires
            0 <= self.idx(i as int, j as int) <= usize::MAX,
            0 <= self.idx(i as int, 0) <= usize::MAX,
            0 <= self.idx(0, j as int) <= usize::MAX,
        ensures
            r == self.idx(i as int, j as int),
    {
        reveal(Layout::idx);
        let x: i128 = i as i128 * self.rs as i128;
        let y: i128 = j as i128 * self.cs as i128;
        (self.off as i128 + x + y) as usize
    }
}

/// Transposing a layout exchanges the two indices.
pub proof fn lemma_transposed_idx(l: Layout, i: int, j: int)
    ensures
        l.transposed().idx(i, j) == l.idx(j, i),
{
    reveal(Layout::idx);
}

/// A transposed view fits where the view fits, and is as free of aliases as the view.
pub proof fn lemma_transposed(l: Layout, rows: int, cols: int, len: int)
    ensures
        l.transposed().transposed() == l,
        l.fits(rows, cols, len) == l.transposed().fits(cols, rows, len),
        l.distinct(rows, cols) == l.transposed().distinct(cols, rows),
        forall|x: int| l.covers(rows, cols, x) == l.transposed().covers(cols, rows, x),
{
    let t = l.transposed();
    assert forall|i: int, j: int| #[trigger] t.idx(i, j) == l.idx(j, i) by {
        lemma_transposed_idx(l, i, j);
    }
    assert forall|i: int, j: int| #[trigger] l.idx(i, j) == t.idx(j, i) by {
        lemma_transposed_idx(l, j, i);
    }
    assert forall|x: int| l.covers(rows, cols, x) == t.covers(cols, rows, x) by {
        if l.covers(rows, cols, x) {
            let (i, j) = choose|i: int, j: int|
                0 <= i < rows && 0 <= j < cols && #[trigger] l.idx(i, j) == x;
            assert(t.idx(j, i) == x);
        }
        if t.covers(cols, rows, x) {
            let (j, i) = choose|j: int, i: int|
                0 <= j < cols && 0 <= i < rows && #[trigger] t.idx(j, i) == x;
            assert(l.idx(i, j) == x);
        }
    }
}

} // verus!
