use vstd::prelude::*;
use crate::matrix::Matrix;

verus! {

/// A rectangle of coordinates: a half-open range of rows and one of columns,
/// `((i_lo, i_hi), (j_lo, j_hi))`.
pub type Domain = ((isize, isize), (isize, isize));

/// A `Domain` with its bounds read as integers.
pub open spec fn dom_int(d: Domain) -> ((int, int), (int, int)) {
    ((d.0.0 as int, d.0.1 as int), (d.1.0 as int, d.1.1 as int))
}

/// Whether `(i, j)` lies in the rectangle `d`.
pub open spec fn in_dom(d: ((int, int), (int, int)), i: int, j: int) -> bool {
    d.0.0 <= i < d.0.1 && d.1.0 <= j < d.1.1
}

/// Whether `x` fits a signed machine coordinate.
pub open spec fn fits(x: int) -> bool {
    isize::MIN <= x <= isize::MAX
}

/// A coordinate transformation: the domain it accepts, and how it carries a
/// coordinate of that domain to a coordinate of the backing it is put over.
pub trait IndexMap {
    /// The map's values fit machine coordinates.
    spec fn wf(&self) -> bool;

    /// The coordinates this map accepts.
    spec fn domain(&self) -> ((int, int), (int, int));

    /// Where the map sends `(i, j)`.
    spec fn map_to(&self, i: int, j: int) -> (int, int);

    /// The coordinates this map accepts.
    fn get_domain(&self) -> (r: Domain)
        requires
            self.wf(),
        ensures
            dom_int(r) == self.domain(),
    ;

    /// Where the map sends `idx`.
    fn index_map(&self, idx: (isize, isize)) -> (r: (isize, isize))
        requires
            self.wf(),
            in_dom(self.domain(), idx.0 as int, idx.1 as int),
        ensures
            (r.0 as int, r.1 as int) == self.map_to(idx.0 as int, idx.1 as int),
    ;
}

/// Swaps the two axes: `(i, j)` goes to `(j, i)`.
pub struct TransposeMap {
    pub range_i: (isize, isize),
    pub range_j: (isize, isize),
}

impl IndexMap for TransposeMap {
    open spec fn wf(&self) -> bool {
        true
    }

    open spec fn domain(&self) -> ((int, int), (int, int)) {
        dom_int((self.range_i, self.range_j))
    }

    open spec fn map_to(&self, i: int, j: int) -> (int, int) {
        (j, i)
    }

    fn get_domain(&self) -> (r: Domain) {
        (self.range_i, self.range_j)
    }

    fn index_map(&self, idx: (isize, isize)) -> (r: (isize, isize)) {
        let (i, j) = idx;
        (j, i)
    }
}

/// Shifts coordinates by a start offset: the map covers `src_domain` of its
/// backing, and local `(i, j)` goes to `(i + si, j + sj)`, so that the local
/// domain is `src_domain` shifted by `-start_offset`.
pub struct OffsetMap {
    pub start_offset: (isize, isize),
    pub src_domain: Domain,
}

impl IndexMap for OffsetMap {
    open spec fn wf(&self) -> bool {
        let d = dom_int(self.src_domain);
        let (si, sj) = (self.start_offset.0 as int, self.start_offset.1 as int);
        &&& fits(d.0.0 - si)
        &&& fits(d.0.1 - si)
        &&& fits(d.1.0 - sj)
        &&& fits(d.1.1 - sj)
    }

    open spec fn domain(&self) -> ((int, int), (int, int)) {
        let d = dom_int(self.src_domain);
        let (si, sj) = (self.start_offset.0 as int, self.start_offset.1 as int);
        ((d.0.0 - si, d.0.1 - si), (d.1.0 - sj, d.1.1 - sj))
    }

    open spec fn map_to(&self, i: int, j: int) -> (int, int) {
        (i + self.start_offset.0, j + self.start_offset.1)
    }

    fn get_domain(&self) -> (r: Domain) {
        let (dims_i, dims_j) = self.src_domain;
        let (si, sj) = self.start_offset;
        ((dims_i.0 - si, dims_i.1 - si), (dims_j.0 - sj, dims_j.1 - sj))
    }

    fn index_map(&self, idx: (isize, isize)) -> (r: (isize, isize)) {
        let (i, j) = idx;
        (i + self.start_offset.0, j + self.start_offset.1)
    }
}

/// The coordinate map of a view: one of the built-in kinds.
pub enum CoordMap {
    Offset(OffsetMap),
    Transpose(TransposeMap),
}

impl IndexMap for CoordMap {
    open spec fn wf(&self) -> bool {
        match self {
            CoordMap::Offset(m) => m.wf(),
            CoordMap::Transpose(m) => m.wf(),
        }
    }

    open spec fn domain(&self) -> ((int, int), (int, int)) {
        match self {
            CoordMap::Offset(m) => m.domain(),
            CoordMap::Transpose(m) => m.domain(),
        }
    }

    open spec fn map_to(&self, i: int, j: int) -> (int, int) {
        match self {
            CoordMap::Offset(m) => m.map_to(i, j),
            CoordMap::Transpose(m) => m.map_to(i, j),
        }
    }

    fn get_domain(&self) -> (r: Domain) {
        match self {
            CoordMap::Offset(m) => m.get_domain(),
            CoordMap::Transpose(m) => m.get_domain(),
        }
    }

    fn index_map(&self, idx: (isize, isize)) -> (r: (isize, isize)) {
        match self {
            CoordMap::Offset(m) => m.index_map(idx),
            CoordMap::Transpose(m) => m.index_map(idx),
        }
    }
}

/// What a view reads through: the matrix itself, or another view.
pub enum Backing<'a, T> {
    Real(&'a Matrix<T>),
    View(Box<MView<'a, T>>),
}

/// A non-owning window onto a matrix: local coordinates are carried by `map`
/// to coordinates of `backing`, down the chain to the matrix at its root.
pub struct MView<'a, T> {
    map: CoordMap,
    backing: Backing<'a, T>,
}

/// The domain of an `r` by `c` matrix.
pub open spec fn grid(r: int, c: int) -> ((int, int), (int, int)) {
    ((0, r), (0, c))
}

impl<'a, T> MView<'a, T> {
    /// The coordinates this view accepts.
    pub closed spec fn domain(&self) -> ((int, int), (int, int)) {
        self.map.domain()
    }

    /// The number of rows.
    pub open spec fn rows(&self) -> int {
        self.domain().0.1 - self.domain().0.0
    }

    /// The number of columns.
    pub open spec fn cols(&self) -> int {
        self.domain().1.1 - self.domain().1.0
    }

    /// Whether `(i, j)` is a valid coordinate of this view.
    pub open spec fn in_bounds(&self, i: int, j: int) -> bool {
        0 <= i < self.rows() && 0 <= j < self.cols()
    }

    /// The coordinates the backing accepts.
    pub closed spec fn backing_domain(&self) -> ((int, int), (int, int)) {
        match self.backing {
            Backing::Real(m) => grid(m.rows(), m.cols()),
            Backing::View(v) => v.domain(),
        }
    }

    /// The map is well formed, its domain is a grid anchored at `(0, 0)`, it
    /// sends every coordinate of that domain into the backing's domain, and
    /// the backing is well formed in turn.
    pub closed spec fn wf(&self) -> bool
        decreases self,
    {
        &&& self.map.wf()
        &&& self.domain() == grid(self.rows(), self.cols())
        &&& self.rows() >= 0
        &&& self.cols() >= 0
        &&& forall|i: int, j: int| #![trigger self.map.map_to(i, j)]
            in_dom(self.domain(), i, j)
                ==> in_dom(self.backing_domain(), self.map.map_to(i, j).0, self.map.map_to(i, j).1)
        &&& match self.backing {
            Backing::Real(m) => m.wf(),
            Backing::View(v) => v.wf(),
        }
    }

    /// The element this view shows at `(i, j)`.
    pub closed spec fn at(&self, i: int, j: int) -> T
        decreases self,
    {
        let (a, b) = self.map.map_to(i, j);
        match self.backing {
            Backing::Real(m) => m.at(a, b),
            Backing::View(v) => v.at(a, b),
        }
    }

    /// A well-formed view of `r1 - r0 + 1` rows and `c1 - c0 + 1` columns
    /// whose element `(i, j)` is element `(r0 + i, c0 + j)` of `m`.
    pub open spec fn is_submatrix_of_matrix(&self, m: &Matrix<T>, r0: int, r1: int, c0: int, c1: int) -> bool {
        &&& self.wf()
        &&& self.rows() == r1 - r0 + 1
        &&& self.cols() == c1 - c0 + 1
        &&& forall|i: int, j: int| self.in_bounds(i, j) ==> #[trigger] self.at(i, j) == m.at(r0 + i, c0 + j)
    }

    /// A well-formed view of `r1 - r0 + 1` rows and `c1 - c0 + 1` columns
    /// whose element `(i, j)` is element `(r0 + i, c0 + j)` of `v`.
    pub open spec fn is_submatrix_of(&self, v: &MView<'a, T>, r0: int, r1: int, c0: int, c1: int) -> bool {
        &&& self.wf()
        &&& self.rows() == r1 - r0 + 1
        &&& self.cols() == c1 - c0 + 1
        &&& forall|i: int, j: int| self.in_bounds(i, j) ==> #[trigger] self.at(i, j) == v.at(r0 + i, c0 + j)
    }

    /// A well-formed view with the rows and columns of `m` swapped, whose
    /// element `(i, j)` is element `(j, i)` of `m`.
    pub open spec fn is_transpose_of_matrix(&self, m: &Matrix<T>) -> bool {
        &&& self.wf()
        &&& self.rows() == m.cols()
        &&& self.cols() == m.rows()
        &&& forall|i: int, j: int| self.in_bounds(i, j) ==> #[trigger] self.at(i, j) == m.at(j, i)
    }

    /// A well-formed view with the rows and columns of `v` swapped, whose
    /// element `(i, j)` is element `(j, i)` of `v`.
    pub open spec fn is_transpose_of(&self, v: &MView<'a, T>) -> bool {
        &&& self.wf()
        &&& self.rows() == v.cols()
        &&& self.cols() == v.rows()
        &&& forall|i: int, j: int| self.in_bounds(i, j) ==> #[trigger] self.at(i, j) == v.at(j, i)
    }

    /// The rectangle of coordinates this view accepts.
    pub fn get_domain(&self) -> (r: Domain)
        requires
            self.wf(),
        ensures
            dom_int(r) == self.domain(),
    {
        self.map.get_domain()
    }

    /// The number of rows and columns.
    pub fn get_dims(&self) -> (r: (usize, usize))
        requires
            self.wf(),
        ensures
            r.0 == self.rows(),
            r.1 == self.cols(),
    {
        let (range_i, range_j) = self.get_domain();
        ((range_i.1 - range_i.0) as usize, (range_j.1 - range_j.0) as usize)
    }

    /// A reference to the element this view shows at `idx`.
    pub fn index(&self, idx: (isize, isize)) -> (r: &T)
        requires
            self.wf(),
            self.in_bounds(idx.0 as int, idx.1 as int),
        ensures
            *r == self.at(idx.0 as int, idx.1 as int),
        decreases self,
    {
        let mapped = self.map.index_map(idx);
        match &self.backing {
            Backing::Real(m) => m.index(mapped),
            Backing::View(v) => v.index(mapped),
        }
    }

    /// The element this view shows at `idx`, or `None` when `idx` lies
    /// outside the view.
    pub fn get(&self, idx: (isize, isize)) -> (r: Option<&T>)
        requires
            self.wf(),
        ensures
            r is None <==> !self.in_bounds(idx.0 as int, idx.1 as int),
            r is Some ==> *r->0 == self.at(idx.0 as int, idx.1 as int),
    {
        let (range_i, range_j) = self.get_domain();
        let (i, j) = idx;
        if range_i.0 <= i && i < range_i.1 && range_j.0 <= j && j < range_j.1 {
            Some(self.index(idx))
        } else {
            None
        }
    }

    /// The submatrix of this view made of rows `range_i.0` through
    /// `range_i.1` and columns `range_j.0` through `range_j.1`, both ends
    /// included; an end one below its start gives an empty axis.
    pub fn view(self, range_i: (isize, isize), range_j: (isize, isize)) -> (r: MView<'a, T>)
        requires
            self.wf(),
            0 <= range_i.0 <= range_i.1 + 1,
            range_i.1 < self.rows(),
            0 <= range_j.0 <= range_j.1 + 1,
            range_j.1 < self.cols(),
        ensures
            r.is_submatrix_of(&self, range_i.0 as int, range_i.1 as int, range_j.0 as int, range_j.1 as int),
    {
        let map = OffsetMap {
            start_offset: (range_i.0, range_j.0),
            src_domain: ((range_i.0, range_i.1 + 1), (range_j.0, range_j.1 + 1)),
        };
        MView { map: CoordMap::Offset(map), backing: Backing::View(Box::new(self)) }
    }

    /// This view with its axes swapped.
    pub fn transpose(self) -> (r: MView<'a, T>)
        requires
            self.wf(),
        ensures
            r.is_transpose_of(&self),
    {
        let (m, n) = self.get_dims();
        let map = TransposeMap { range_i: (0, n as isize), range_j: (0, m as isize) };
        MView { map: CoordMap::Transpose(map), backing: Backing::View(Box::new(self)) }
    }
}

/// Transposing a matrix twice gives back its shape and its elements.
pub proof fn lemma_transpose_round_trip<'a, T>(m: &'a Matrix<T>, t: &MView<'a, T>, tt: &MView<'a, T>)
    requires
        m.wf(),
        t.is_transpose_of_matrix(m),
        tt.is_transpose_of(t),
    ensures
        tt.rows() == m.rows(),
        tt.cols() == m.cols(),
        forall|i: int, j: int| tt.in_bounds(i, j) <==> m.in_bounds(i, j),
        forall|i: int, j: int| m.in_bounds(i, j) ==> #[trigger] tt.at(i, j) == m.at(i, j),
{
}

/// Transposing a view twice gives back its shape and its elements.
pub proof fn lemma_view_transpose_round_trip<'a, T>(v: &MView<'a, T>, t: &MView<'a, T>, tt: &MView<'a, T>)
    requires
        v.wf(),
        t.is_transpose_of(v),
        tt.is_transpose_of(t),
    ensures
        tt.rows() == v.rows(),
        tt.cols() == v.cols(),
        forall|i: int, j: int| tt.in_bounds(i, j) <==> v.in_bounds(i, j),
        forall|i: int, j: int| v.in_bounds(i, j) ==> #[trigger] tt.at(i, j) == v.at(i, j),
{
}

/// Taking rows `r0..=r1` and columns `c0..=c1` of a matrix and then
/// transposing gives the transpose of that submatrix: element `(i, j)` is
/// element `(r0 + j, c0 + i)` of the matrix.
pub proof fn lemma_view_then_transpose<'a, T>(
    m: &'a Matrix<T>,
    v: &MView<'a, T>,
    vt: &MView<'a, T>,
    r0: int,
    r1: int,
    c0: int,
    c1: int,
)
    requires
        m.wf(),
        v.is_submatrix_of_matrix(m, r0, r1, c0, c1),
        vt.is_transpose_of(v),
    ensures
        vt.rows() == c1 - c0 + 1,
        vt.cols() == r1 - r0 + 1,
        forall|i: int, j: int| vt.in_bounds(i, j) ==> #[trigger] vt.at(i, j) == m.at(r0 + j, c0 + i),
{
}

/// Transposing a matrix and then taking rows `r0..=r1` and columns `c0..=c1`
/// gives element `(c0 + j, r0 + i)` of the matrix at `(i, j)`: the ranges
/// now count along the matrix's columns and rows respectively.
pub proof fn lemma_transpose_then_view<'a, T>(
    m: &'a Matrix<T>,
    t: &MView<'a, T>,
    tv: &MView<'a, T>,
    r0: int,
    r1: int,
    c0: int,
    c1: int,
)
    requires
        m.wf(),
        t.is_transpose_of_matrix(m),
        tv.is_submatrix_of(t, r0, r1, c0, c1),
        0 <= r0,
        r1 < t.rows(),
        0 <= c0,
        c1 < t.cols(),
    ensures
        tv.rows() == r1 - r0 + 1,
        tv.cols() == c1 - c0 + 1,
        forall|i: int, j: int| tv.in_bounds(i, j) ==> #[trigger] tv.at(i, j) == m.at(c0 + j, r0 + i),
{
}

impl<T> Matrix<T> {
    /// The submatrix made of rows `range_i.0` through `range_i.1` and columns
    /// `range_j.0` through `range_j.1`, both ends included; an end one below
    /// its start gives an empty axis.
    pub fn view(&self, range_i: (isize, isize), range_j: (isize, isize)) -> (r: MView<'_, T>)
        requires
            self.wf(),
            0 <= range_i.0 <= range_i.1 + 1,
            range_i.1 < self.rows(),
            0 <= range_j.0 <= range_j.1 + 1,
            range_j.1 < self.cols(),
        ensures
            r.is_submatrix_of_matrix(self, range_i.0 as int, range_i.1 as int, range_j.0 as int, range_j.1 as int),
    {
        proof { self.lemma_dims_fit(); }
        let map = OffsetMap {
            start_offset: (range_i.0, range_j.0),
            src_domain: ((range_i.0, range_i.1 + 1), (range_j.0, range_j.1 + 1)),
        };
        MView { map: CoordMap::Offset(map), backing: Backing::Real(self) }
    }

    /// The matrix with its axes swapped.
    pub fn transpose(&self) -> (r: MView<'_, T>)
        requires
            self.wf(),
        ensures
            r.is_transpose_of_matrix(self),
    {
        proof { self.lemma_dims_fit(); }
        let (m, n) = self.get_dims();
        let map = TransposeMap { range_i: (0, n as isize), range_j: (0, m as isize) };
        MView { map: CoordMap::Transpose(map), backing: Backing::Real(self) }
    }
}

} // verus!
