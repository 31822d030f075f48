use vstd::prelude::*;

verus! {

/// Linear position of cell `(i, j)` in a column-major block with `rows` rows.
pub open spec fn cell(rows: int, i: int, j: int) -> int {
    i + j * rows
}

/// Cell `(i, j)` of a `rows` by `cols` block lies inside the block, in the
/// stretch that holds column `j`.
pub proof fn lemma_cell_bounds(rows: int, cols: int, i: int, j: int)
    requires
        0 <= i < rows,
        0 <= j < cols,
    ensures
        0 <= cell(rows, i, j) < rows * cols,
        cell(rows, i, j) < (j + 1) * rows,
        j * rows <= cell(rows, i, j),
{
    assert(0 <= j * rows) by (nonlinear_arith)
        requires 0 <= j, 0 <= rows;
    assert((j + 1) * rows <= rows * cols) by (nonlinear_arith)
        requires j + 1 <= cols, 0 <= rows;
    assert((j + 1) * rows == j * rows + rows) by (nonlinear_arith);
}

/// Distinct cells of a column-major block occupy distinct positions.
pub proof fn lemma_cell_injective(rows: int, i1: int, j1: int, i2: int, j2: int)
    requires
        0 <= i1 < rows,
        0 <= i2 < rows,
        0 <= j1,
        0 <= j2,
        cell(rows, i1, j1) == cell(rows, i2, j2),
    ensures
        i1 == i2,
        j1 == j2,
{
    if j1 < j2 {
        assert(j1 * rows + rows <= j2 * rows) by (nonlinear_arith)
            requires j1 + 1 <= j2, 0 <= rows;
    } else if j2 < j1 {
        assert(j2 * rows + rows <= j1 * rows) by (nonlinear_arith)
            requires j2 + 1 <= j1, 0 <= rows;
    }
}

/// A dense matrix that owns its elements, stored column by column:
/// element `(i, j)` lives at position `i + j * rows`.
pub struct Matrix<T> {
    dims: (usize, usize),
    data: Vec<T>,
}

impl<T> Matrix<T> {
    /// The number of rows.
    pub closed spec fn rows(&self) -> int {
        self.dims.0 as int
    }

    /// The number of columns.
    pub closed spec fn cols(&self) -> int {
        self.dims.1 as int
    }

    /// The element at `(i, j)`.
    pub closed spec fn at(&self, i: int, j: int) -> T {
        self.data@[cell(self.rows(), i, j)]
    }

    /// The block holds exactly `rows * cols` elements and both extents fit a
    /// signed coordinate.
    pub closed spec fn wf(&self) -> bool {
        &&& self.data@.len() == self.rows() * self.cols()
        &&& self.rows() <= isize::MAX
        &&& self.cols() <= isize::MAX
    }

    /// Both extents of a well-formed matrix fit a signed coordinate.
    pub proof fn lemma_dims_fit(&self)
        requires
            self.wf(),
        ensures
            0 <= self.rows() <= isize::MAX,
            0 <= self.cols() <= isize::MAX,
    {
    }

    /// Whether `(i, j)` is a valid coordinate.
    pub open spec fn in_bounds(&self, i: int, j: int) -> bool {
        0 <= i < self.rows() && 0 <= j < self.cols()
    }

    /// Allocates an `m` by `n` matrix. Its elements start out as
    /// `T::default()`, which this contract does not promise: fill the matrix
    /// before reading it.
    pub fn new(m: usize, n: usize) -> (r: Self)
        where T: Default,
        requires
            m * n <= isize::MAX,
            m <= isize::MAX,
            n <= isize::MAX,
        ensures
            r.wf(),
            r.rows() == m,
            r.cols() == n,
    {
        let len: usize = m * n;
        let mut data: Vec<T> = Vec::with_capacity(len);
        let mut k: usize = 0;
        while k < len
            invariant
                k <= len,
                data@.len() == k,
            decreases len - k,
        {
            data.push(T::default());
            k = k + 1;
        }
        Matrix { dims: (m, n), data }
    }

    /// The number of rows and columns.
    pub fn get_dims(&self) -> (r: (usize, usize))
        ensures
            r.0 == self.rows(),
            r.1 == self.cols(),
    {
        self.dims
    }

    /// A reference to the element at `idx = (i, j)`.
    pub fn index(&self, idx: (isize, isize)) -> (r: &T)
        requires
            self.wf(),
            self.in_bounds(idx.0 as int, idx.1 as int),
        ensures
            *r == self.at(idx.0 as int, idx.1 as int),
    {
        let (i, j) = idx;
        let len: usize = self.data.len();
        proof {
            lemma_cell_bounds(self.rows(), self.cols(), i as int, j as int);
            assert(cell(self.rows(), i as int, j as int) < len);
        }
        &self.data[i as usize + j as usize * self.dims.0]
    }

    /// The element at `idx`, or `None` when `idx` lies outside the matrix.
    pub fn get(&self, idx: (isize, isize)) -> (r: Option<&T>)
        requires
            self.wf(),
        ensures
            r is None <==> !self.in_bounds(idx.0 as int, idx.1 as int),
            r is Some ==> *r->0 == self.at(idx.0 as int, idx.1 as int),
    {
        let (i, j) = idx;
        if i < 0 || j < 0 || i as usize >= self.dims.0 || j as usize >= self.dims.1 {
            None
        } else {
            Some(self.index(idx))
        }
    }

    /// A mutable reference to the element at `idx = (i, j)`; whatever is
    /// written through it lands at `(i, j)` and nowhere else.
    pub fn index_mut(&mut self, idx: (isize, isize)) -> (r: &mut T)
        requires
            old(self).wf(),
            old(self).in_bounds(idx.0 as int, idx.1 as int),
        ensures
            *r == old(self).at(idx.0 as int, idx.1 as int),
            final(self).wf(),
            final(self).rows() == old(self).rows(),
            final(self).cols() == old(self).cols(),
            final(self).at(idx.0 as int, idx.1 as int) == *final(r),
            forall|a: int, b: int|
                final(self).in_bounds(a, b) && (a, b) != (idx.0 as int, idx.1 as int)
                    ==> #[trigger] final(self).at(a, b) == old(self).at(a, b),
    {
        let (i, j) = idx;
        let len: usize = self.data.len();
        proof { lemma_cell_bounds(self.rows(), self.cols(), i as int, j as int); }
        let k: usize = i as usize + j as usize * self.dims.0;
        proof {
            assert forall|a: int, b: int|
                self.in_bounds(a, b) && (a, b) != (i as int, j as int)
                    implies 0 <= #[trigger] cell(self.rows(), a, b) < len && cell(self.rows(), a, b) != k as int by {
                lemma_cell_bounds(self.rows(), self.cols(), a, b);
                if cell(self.rows(), a, b) == k as int {
                    lemma_cell_injective(self.rows(), a, b, i as int, j as int);
                }
            }
        }
        &mut self.data[k]
    }
}

impl<T: Copy> Matrix<T> {
    /// Overwrites every element with `e`.
    pub fn fill(self, e: T) -> (r: Self)
        requires
            self.wf(),
        ensures
            r.wf(),
            r.rows() == self.rows(),
            r.cols() == self.cols(),
            forall|i: int, j: int| r.in_bounds(i, j) ==> #[trigger] r.at(i, j) == e,
    {
        let mut s = self;
        let len: usize = s.data.len();
        let mut k: usize = 0;
        while k < len
            invariant
                s.wf(),
                s.dims == self.dims,
                len == s.data@.len(),
                k <= len,
                forall|q: int| 0 <= q < k ==> #[trigger] s.data@[q] == e,
            decreases len - k,
        {
            s.data.set(k, e);
            k = k + 1;
        }
        proof {
            assert forall|i: int, j: int| s.in_bounds(i, j) implies #[trigger] s.at(i, j) == e by {
                lemma_cell_bounds(s.rows(), s.cols(), i, j);
            }
        }
        s
    }

    /// Overwrites every element `(i, j)` with `f((i, j))`.
    pub fn fill_with<F: Fn((isize, isize)) -> T>(self, f: F) -> (r: Self)
        requires
            self.wf(),
            forall|i: int, j: int| self.in_bounds(i, j) ==> #[trigger] f.requires(((i as isize, j as isize),)),
        ensures
            r.wf(),
            r.rows() == self.rows(),
            r.cols() == self.cols(),
            forall|i: int, j: int| r.in_bounds(i, j) ==> f.ensures(((i as isize, j as isize),), #[trigger] r.at(i, j)),
    {
        let (m, n) = self.dims;
        let mut data: Vec<T> = Vec::with_capacity(self.data.len());
        let mut j: usize = 0;
        while j < n
            invariant
                self.wf(),
                (m, n) == self.dims,
                forall|a: int, b: int| self.in_bounds(a, b) ==> #[trigger] f.requires(((a as isize, b as isize),)),
                j <= n,
                data@.len() == j * m,
                forall|a: int, b: int|
                    0 <= a < m && 0 <= b < j
                        ==> f.ensures(((a as isize, b as isize),), #[trigger] data@[cell(m as int, a, b)]),
            decreases n - j,
        {
            let mut i: usize = 0;
            while i < m
                invariant
                    self.wf(),
                    (m, n) == self.dims,
                    forall|a: int, b: int| self.in_bounds(a, b) ==> #[trigger] f.requires(((a as isize, b as isize),)),
                    j < n,
                    i <= m,
                    data@.len() == j * m + i,
                    forall|a: int, b: int|
                        (0 <= a < m && 0 <= b < j) || (0 <= a < i && b == j)
                            ==> f.ensures(((a as isize, b as isize),), #[trigger] data@[cell(m as int, a, b)]),
                decreases m - i,
            {
                proof {
                    assert forall|a: int, b: int|
                        (0 <= a < m && 0 <= b < j) || (0 <= a < i && b == j)
                            implies cell(m as int, a, b) < data@.len() by {
                        if b < j {
                            lemma_cell_bounds(m as int, j as int, a, b);
                            assert(m * j == j * m) by (nonlinear_arith);
                        }
                    }
                    assert(f.requires((((i as int) as isize, (j as int) as isize),)));
                }
                let v = f((i as isize, j as isize));
                data.push(v);
                i = i + 1;
            }
            proof {
                assert((j + 1) * m == j * m + m) by (nonlinear_arith);
            }
            j = j + 1;
        }
        proof {
            assert(n * m == m * n) by (nonlinear_arith);
        }
        Matrix { dims: (m, n), data }
    }
}

} // verus!
