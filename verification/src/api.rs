//! Strided matrix views and the checks that every checked entry shares.

use vstd::arithmetic::mul::*;
use vstd::prelude::*;

use crate::arith::{abs_int, saturate, saturating_mul, unsigned_abs};
use crate::error::{GemmError, Operand};
use crate::layout::Layout;

verus! {

/// An immutable strided matrix view over a slice. Element `(i, j)` lives at slice offset
/// `i*rs + j*cs`.
///
/// Nothing is checked when a view is made: every checked entry rejects a view that reaches
/// outside its slice or has a negative stride.
pub struct MatRef<'a, T> {
    pub data: &'a [T],
    pub rows: usize,
    pub cols: usize,
    pub rs: isize,
    pub cs: isize,
}

impl<'a, T> Copy for MatRef<'a, T> {

}

impl<'a, T> Clone for MatRef<'a, T> {
    fn clone(&self) -> (r: Self)
        ensures
            r == *self,
    {
        *self
    }
}

/// A mutable strided matrix view over a slice, laid out like [`MatRef`]: the output `C`.
pub struct MatMut<'a, T> {
    pub data: &'a mut [T],
    pub rows: usize,
    pub cols: usize,
    pub rs: isize,
    pub cs: isize,
}

impl<'a, T> MatRef<'a, T> {
    /// Where the elements live.
    pub open spec fn layout_spec(self) -> Layout {
        Layout { off: 0, rs: self.rs, cs: self.cs }
    }

    /// Element `(i, j)`.
    pub open spec fn at(self, i: int, j: int) -> T {
        self.data@[self.layout_spec().idx(i, j)]
    }

    /// A view with explicit strides.
    pub fn new(data: &'a [T], rows: usize, cols: usize, rs: isize, cs: isize) -> (r: Self)
        ensures
            r == (MatRef { data, rows, cols, rs, cs }),
    {
        MatRef { data, rows, cols, rs, cs }
    }

    /// A row-major view: row stride `cols`, column stride 1.
    pub fn from_row_major(data: &'a [T], rows: usize, cols: usize) -> (r: Self)
        ensures
            r == (MatRef { data, rows, cols, rs: cols as isize, cs: 1 }),
    {
        Self::new(data, rows, cols, cols as isize, 1)
    }

    /// A column-major view: row stride 1, column stride `rows`.
    pub fn from_col_major(data: &'a [T], rows: usize, cols: usize) -> (r: Self)
        ensures
            r == (MatRef { data, rows, cols, rs: 1, cs: rows as isize }),
    {
        Self::new(data, rows, cols, 1, rows as isize)
    }

    /// Number of rows.
    pub fn rows(&self) -> (r: usize)
        ensures
            r == self.rows,
    {
        self.rows
    }

    /// Number of columns.
    pub fn cols(&self) -> (r: usize)
        ensures
            r == self.cols,
    {
        self.cols
    }

    /// Where the elements live.
    pub fn layout(&self) -> (r: Layout)
        ensures
            r == self.layout_spec(),
    {
        Layout { off: 0, rs: self.rs, cs: self.cs }
    }
}

impl<'a, T> MatMut<'a, T> {
    /// Where the elements live.
    pub open spec fn layout_spec(self) -> Layout {
        Layout { off: 0, rs: self.rs, cs: self.cs }
    }

    /// A mutable view with explicit strides.
    pub fn new(data: &'a mut [T], rows: usize, cols: usize, rs: isize, cs: isize) -> (r: Self)
        ensures
            r.data@ == old(data)@,
            final(r.data)@ == final(data)@,
            r.rows == rows,
            r.cols == cols,
            r.rs == rs,
            r.cs == cs,
    {
        MatMut { data, rows, cols, rs, cs }
    }

    /// A row-major mutable view: row stride `cols`, column stride 1.
    pub fn from_row_major(data: &'a mut [T], rows: usize, cols: usize) -> (r: Self)
        ensures
            r.data@ == old(data)@,
            final(r.data)@ == final(data)@,
            r.rows == rows,
            r.cols == cols,
            r.rs == cols as isize,
            r.cs == 1,
    {
        Self::new(data, rows, cols, cols as isize, 1)
    }

    /// A column-major mutable view: row stride 1, column stride `rows`.
    pub fn from_col_major(data: &'a mut [T], rows: usize, cols: usize) -> (r: Self)
        ensures
            r.data@ == old(data)@,
            final(r.data)@ == final(data)@,
            r.rows == rows,
            r.cols == cols,
            r.rs == 1,
            r.cs == rows as isize,
    {
        Self::new(data, rows, cols, 1, rows as isize)
    }

    /// Number of rows.
    pub fn rows(&self) -> (r: usize)
        ensures
            r == self.rows,
    {
        self.rows
    }

    /// Number of columns.
    pub fn cols(&self) -> (r: usize)
        ensures
            r == self.cols,
    {
        self.cols
    }

    /// Where the elements live.
    pub fn layout(&self) -> (r: Layout)
        ensures
            r == self.layout_spec(),
    {
        Layout { off: 0, rs: self.rs, cs: self.cs }
    }
}

/// What the dimension `dim` with stride `s` adds to the highest offset.
pub open spec fn reach(dim: int, s: int) -> int {
    (dim - 1) * s
}

/// The highest slice offset (exclusive) that a view reaches; `None` for a view that the checked
/// entries do not take, because a stride leads backwards or the view is too large to address.
pub open spec fn extent_spec(rows: usize, cols: usize, rs: isize, cs: isize) -> Option<int> {
    if rows == 0 || cols == 0 {
        Some(0)
    } else if rows <= isize::MAX && cols <= isize::MAX && 0 <= reach(rows as int, rs as int)
        && 0 <= reach(cols as int, cs as int) && reach(rows as int, rs as int) + reach(
        cols as int,
        cs as int,
    ) <= isize::MAX {
        Some(reach(rows as int, rs as int) + reach(cols as int, cs as int) + 1)
    } else {
        None
    }
}

/// What one dimension adds to the extent, or `None` where it leads backwards or overflows.
fn dim_reach(dim: usize, s: isize) -> (r: Option<isize>)
    requires
        dim > 0,
    ensures
        r is Some <==> dim <= isize::MAX && 0 <= reach(dim as int, s as int) <= isize::MAX,
        r matches Some(e) ==> e == reach(dim as int, s as int),
{
    if dim > isize::MAX as usize {
        return None;
    }
    let steps: isize = dim as isize - 1;
    match steps.checked_mul(s) {
        Some(e) => if e < 0 {
            None
        } else {
            Some(e)
        },
        None => None,
    }
}

/// Highest slice offset (exclusive) reached by a `rows x cols` view at strides `rs`, `cs`.
///
/// A dimension of length 1 adds nothing, whatever the sign of its stride.
pub fn extent(rows: usize, cols: usize, rs: isize, cs: isize) -> (r: Option<usize>)
    ensures
        match extent_spec(rows, cols, rs, cs) {
            Some(e) => r == Some(e as usize) && 0 <= e <= usize::MAX,
            None => r is None,
        },
{
    if rows == 0 || cols == 0 {
        return Some(0);
    }
    match (dim_reach(rows, rs), dim_reach(cols, cs)) {
        (Some(er), Some(ec)) => match er.checked_add(ec) {
            Some(hi) => (hi as usize).checked_add(1),
            None => None,
        },
        _ => None,
    }
}

/// The extent is the least slice length that holds the view: every element lies below it, and
/// a view that is not empty has an element right below it.
pub proof fn law_extent_is_tight(rows: usize, cols: usize, rs: isize, cs: isize)
    requires
        extent_spec(rows, cols, rs, cs) is Some,
    ensures
        (Layout { off: 0, rs, cs }).fits(
            rows as int,
            cols as int,
            extent_spec(rows, cols, rs, cs)->0,
        ),
        rows > 0 && cols > 0 ==> (Layout { off: 0, rs, cs }).idx(rows - 1, cols - 1)
            == extent_spec(rows, cols, rs, cs)->0 - 1,
{
    let l = Layout { off: 0, rs, cs };
    reveal(Layout::idx);
    assert forall|i: int, j: int| 0 <= i < rows && 0 <= j < cols implies 0 <= #[trigger] l.idx(
        i,
        j,
    ) < extent_spec(rows, cols, rs, cs)->0 by {
        lemma_reach_monotone(i, rows as int, rs as int);
        lemma_reach_monotone(j, cols as int, cs as int);
    }
}

proof fn lemma_reach_monotone(i: int, dim: int, s: int)
    requires
        0 <= i < dim,
        0 <= reach(dim, s),
    ensures
        0 <= i * s <= reach(dim, s),
{
    assert(0 <= i * s <= (dim - 1) * s) by (nonlinear_arith)
        requires
            0 <= i <= dim - 1,
            0 <= (dim - 1) * s,
    ;
}

/// A negative stride on a dimension longer than 1 is never accepted.
pub proof fn law_extent_rejects_negative_strides(rows: usize, cols: usize, rs: isize, cs: isize)
    requires
        rows > 0,
        cols > 0,
        (rows > 1 && rs < 0) || (cols > 1 && cs < 0),
    ensures
        extent_spec(rows, cols, rs, cs) is None,
{
    if rows > 1 && rs < 0 {
        assert((rows - 1) * rs < 0) by (nonlinear_arith)
            requires
                rows > 1,
                rs < 0,
        ;
    } else {
        assert((cols - 1) * cs < 0) by (nonlinear_arith)
            requires
                cols > 1,
                cs < 0,
        ;
    }
}

/// The test by which an output view is taken to alias itself. A dimension of length 1 or less
/// cannot collide. With two real dimensions the larger stride has to clear the whole span of the
/// smaller one.
pub open spec fn self_aliases_spec(rows: usize, cols: usize, rs: isize, cs: isize) -> bool {
    let r = abs_int(rs as int);
    let c = abs_int(cs as int);
    if rows == 0 || cols == 0 {
        false
    } else if rows <= 1 && cols <= 1 {
        false
    } else if cols <= 1 {
        r == 0
    } else if rows <= 1 {
        c == 0
    } else if r <= c {
        r == 0 || c < saturate(r * rows)
    } else {
        c == 0 || r < saturate(c * cols)
    }
}

/// Whether a strided output view may map two distinct elements to one offset. An input may; an
/// output may not, because its elements are written independently of each other.
pub fn self_aliases(rows: usize, cols: usize, rs: isize, cs: isize) -> (r: bool)
    ensures
        r == self_aliases_spec(rows, cols, rs, cs),
{
    if rows == 0 || cols == 0 {
        return false;
    }
    let ar: usize = unsigned_abs(rs);
    let ac: usize = unsigned_abs(cs);
    if rows <= 1 && cols <= 1 {
        false
    } else if cols <= 1 {
        ar == 0
    } else if rows <= 1 {
        ac == 0
    } else if ar <= ac {
        ar == 0 || ac < saturating_mul(ar, rows)
    } else {
        ac == 0 || ar < saturating_mul(ac, cols)
    }
}

/// A view that passes the self-aliasing test addresses every element uniquely.
pub proof fn law_no_self_alias_is_distinct(
    rows: usize,
    cols: usize,
    rs: isize,
    cs: isize,
    off: usize,
)
    requires
        !self_aliases_spec(rows, cols, rs, cs),
    ensures
        (Layout { off, rs, cs }).distinct(rows as int, cols as int),
{
    let l = Layout { off, rs, cs };
    reveal(Layout::idx);
    assert forall|i: int, j: int, i2: int, j2: int|
        #![trigger l.idx(i, j), l.idx(i2, j2)]
        0 <= i < rows && 0 <= j < cols && 0 <= i2 < rows && 0 <= j2 < cols && l.idx(i, j) == l.idx(
            i2,
            j2,
        ) implies i == i2 && j == j2 by {
        let r = abs_int(rs as int);
        let c = abs_int(cs as int);
        assert((i - i2) * rs == (j2 - j) * cs) by (nonlinear_arith)
            requires
                i * rs + j * cs == i2 * rs + j2 * cs,
        ;
        if rows <= 1 && cols <= 1 {
        } else if cols <= 1 {
            lemma_mul_basics(cs as int);
            assert(j2 - j == 0);
            lemma_zero_step(i - i2, rs as int);
        } else if rows <= 1 {
            lemma_mul_basics(rs as int);
            assert(i - i2 == 0);
            lemma_zero_step(j2 - j, cs as int);
        } else if r <= c {
            lemma_clear_span(i - i2, rs as int, j2 - j, cs as int, rows as int);
            lemma_zero_step(i - i2, rs as int);
        } else {
            lemma_clear_span(j2 - j, cs as int, i - i2, rs as int, cols as int);
            lemma_zero_step(j2 - j, cs as int);
        }
    }
}

/// A multiple of a nonzero stride is zero only for no steps.
proof fn lemma_zero_step(d: int, s: int)
    requires
        s != 0,
        d * s == 0,
    ensures
        d == 0,
{
    assert(d == 0) by (nonlinear_arith)
        requires
            s != 0,
            d * s == 0,
    ;
}

/// Fewer than `dim` small steps never amount to a nonzero number of large steps.
proof fn lemma_clear_span(d: int, s: int, e: int, big: int, dim: int)
    requires
        d * s == e * big,
        -dim < d < dim,
        s != 0,
        abs_int(big) >= saturate(abs_int(s) * dim),
        abs_int(big) < usize::MAX,
    ensures
        e == 0,
        d * s == 0,
{
    let u = abs_int(s);
    let w = abs_int(big);
    assert(w >= u * dim);
    if e != 0 {
        assert(abs_int(e * big) >= w) by (nonlinear_arith)
            requires
                e != 0,
                w == abs_int(big),
        ;
        assert(abs_int(d * s) < u * dim) by (nonlinear_arith)
            requires
                -dim < d < dim,
                u == abs_int(s),
                s != 0,
        ;
    }
}

/// Whether a view fits a slice of `len` elements.
pub open spec fn view_fits(rows: usize, cols: usize, rs: isize, cs: isize, len: int) -> bool {
    match extent_spec(rows, cols, rs, cs) {
        Some(e) => e <= len,
        None => false,
    }
}

/// The error of a view that does not fit a slice of `len` elements.
pub open spec fn view_error(
    rows: usize,
    cols: usize,
    rs: isize,
    cs: isize,
    len: int,
    view: Operand,
) -> GemmError {
    match extent_spec(rows, cols, rs, cs) {
        Some(e) => GemmError::OutOfBounds { view, need: e as usize, len: len as usize },
        None => GemmError::Unaddressable { view },
    }
}

/// Check that a view stays inside a slice of `len` elements.
pub fn check_view(
    len: usize,
    rows: usize,
    cols: usize,
    rs: isize,
    cs: isize,
    view: Operand,
) -> (r: Result<(), GemmError>)
    ensures
        r is Ok <==> view_fits(rows, cols, rs, cs, len as int),
        r matches Err(e) ==> e == view_error(rows, cols, rs, cs, len as int, view),
{
    match extent(rows, cols, rs, cs) {
        Some(need) => if need <= len {
            Ok(())
        } else {
            Err(GemmError::OutOfBounds { view, need, len })
        },
        None => Err(GemmError::Unaddressable { view }),
    }
}

/// The dimensions and strides of a view, with the length of its slice.
pub struct Geometry {
    pub len: int,
    pub rows: usize,
    pub cols: usize,
    pub rs: isize,
    pub cs: isize,
}

impl<'a, T> MatRef<'a, T> {
    pub open spec fn geometry(self) -> Geometry {
        Geometry {
            len: self.data@.len() as int,
            rows: self.rows,
            cols: self.cols,
            rs: self.rs,
            cs: self.cs,
        }
    }
}

impl<'a, T> MatMut<'a, T> {
    pub open spec fn geometry(self) -> Geometry {
        Geometry {
            len: self.data@.len() as int,
            rows: self.rows,
            cols: self.cols,
            rs: self.rs,
            cs: self.cs,
        }
    }
}

impl Geometry {
    pub open spec fn in_bounds(self) -> bool {
        view_fits(self.rows, self.cols, self.rs, self.cs, self.len)
    }

    pub open spec fn error(self, view: Operand) -> GemmError {
        view_error(self.rows, self.cols, self.rs, self.cs, self.len, view)
    }
}

/// The first reason, in the order of the checks, why `A`, `B` and `C` do not make a product.
pub open spec fn gemm_views_error(a: Geometry, b: Geometry, c: Geometry) -> Option<GemmError> {
    if a.cols != b.rows {
        Some(GemmError::InnerMismatch { a_cols: a.cols, b_rows: b.rows })
    } else if a.rows != c.rows {
        Some(GemmError::RowsMismatch { a_rows: a.rows, c_rows: c.rows })
    } else if b.cols != c.cols {
        Some(GemmError::ColsMismatch { b_cols: b.cols, c_cols: c.cols })
    } else if !a.in_bounds() {
        Some(a.error(Operand::A))
    } else if !b.in_bounds() {
        Some(b.error(Operand::B))
    } else if !c.in_bounds() {
        Some(c.error(Operand::C))
    } else if self_aliases_spec(c.rows, c.cols, c.rs, c.cs) {
        Some(GemmError::SelfAliasing)
    } else {
        None
    }
}

/// The checks that every checked entry makes of its operands: the shapes agree, every view
/// stays inside its slice, and C addresses each element uniquely. A mutable borrow of C's slice
/// cannot overlap the slices of A and B, so that needs no test.
pub fn validate_gemm_views<TI, TO>(
    a: &MatRef<'_, TI>,
    b: &MatRef<'_, TI>,
    c: &MatMut<'_, TO>,
) -> (r: Result<(), GemmError>)
    ensures
        r == (match gemm_views_error(a.geometry(), b.geometry(), c.geometry()) {
            Some(e) => Err::<(), GemmError>(e),
            None => Ok(()),
        }),
{
    if a.cols != b.rows {
        return Err(GemmError::InnerMismatch { a_cols: a.cols, b_rows: b.rows });
    }
    if a.rows != c.rows {
        return Err(GemmError::RowsMismatch { a_rows: a.rows, c_rows: c.rows });
    }
    if b.cols != c.cols {
        return Err(GemmError::ColsMismatch { b_cols: b.cols, c_cols: c.cols });
    }
    if let Err(e) = check_view(a.data.len(), a.rows, a.cols, a.rs, a.cs, Operand::A) {
        return Err(e);
    }
    if let Err(e) = check_view(b.data.len(), b.rows, b.cols, b.rs, b.cs, Operand::B) {
        return Err(e);
    }
    if let Err(e) = check_view(c.data.len(), c.rows, c.cols, c.rs, c.cs, Operand::C) {
        return Err(e);
    }
    if self_aliases(c.rows, c.cols, c.rs, c.cs) {
        return Err(GemmError::SelfAliasing);
    }
    Ok(())
}

/// Whether two byte ranges overlap, each given by its first address, an element count and an
/// element size.
pub fn overlaps_bytes(
    pa: usize,
    na: usize,
    sa: usize,
    pb: usize,
    nb: usize,
    sb: usize,
) -> (r: bool)
    requires
        pa + na * sa <= usize::MAX,
        pb + nb * sb <= usize::MAX,
    ensures
        r == (pa < pb + nb * sb && pb < pa + na * sa),
{
    proof {
        assert(0 <= na * sa && 0 <= nb * sb) by (nonlinear_arith)
            requires
                na >= 0,
                sa >= 0,
                nb >= 0,
                sb >= 0,
        ;
    }
    let a1: usize = pa + na * sa;
    let b1: usize = pb + nb * sb;
    pa < b1 && pb < a1
}

/// Whether the byte ranges of two runs of elements of one size overlap.
pub fn overlaps(pa: usize, na: usize, pb: usize, nb: usize, size: usize) -> (r: bool)
    requires
        pa + na * size <= usize::MAX,
        pb + nb * size <= usize::MAX,
    ensures
        r == (pa < pb + nb * size && pb < pa + na * size),
{
    overlaps_bytes(pa, na, size, pb, nb, size)
}

/// `x` lies in `lo..hi`.
pub open spec fn within(x: int, lo: int, hi: int) -> bool {
    lo <= x < hi
}

/// Two ranges that hold at least a byte overlap exactly when they share an address.
pub proof fn law_overlap_is_a_shared_byte(a0: int, a1: int, b0: int, b1: int)
    requires
        a0 < a1,
        b0 < b1,
    ensures
        (a0 < b1 && b0 < a1) <==> exists|x: int|
            within(x, a0, a1) && within(x, b0, b1),
{
    if a0 < b1 && b0 < a1 {
        let x = if a0 <= b0 {
            b0
        } else {
            a0
        };
        assert(within(x, a0, a1) && within(x, b0, b1));
    }
}

} // verus!
