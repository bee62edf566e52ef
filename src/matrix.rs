use vstd::prelude::*;

verus! {

/// A rectangular grid of cells, stored row by row.
///
/// The grid only arranges its cells: it is generic over what a cell holds,
/// so the arithmetic on the cells is left to the caller.
#[derive(Debug)]
pub struct Matrix<T> {
    rows: Vec<Vec<T>>,
    columns: usize,
}

/// Index of the row (or column) of the full matrix that lands at index `i`
/// once index `skip` is struck out.
pub open spec fn skip_index(i: int, skip: int) -> int {
    if i < skip {
        i
    } else {
        i + 1
    }
}

impl<T> Matrix<T> {
    /// Every row holds `columns` cells.
    pub closed spec fn wf(&self) -> bool {
        forall|r: int| 0 <= r < self.rows@.len() ==> #[trigger] self.rows@[r]@.len() == self.columns
    }

    /// Number of rows.
    pub closed spec fn rows_spec(&self) -> nat {
        self.rows@.len()
    }

    /// Number of columns.
    pub closed spec fn columns_spec(&self) -> nat {
        self.columns as nat
    }

    /// The cell at row `r`, column `c`.
    pub closed spec fn at(&self, r: int, c: int) -> T {
        self.rows@[r]@[c]
    }

    pub open spec fn is_square_spec(&self) -> bool {
        self.rows_spec() == self.columns_spec()
    }

    /// A `height` by `width` matrix with every cell set to `fill`.
    pub fn new(height: usize, width: usize, fill: T) -> (m: Matrix<T>) where T: Copy
        ensures
            m.wf(),
            m.rows_spec() == height,
            m.columns_spec() == width,
            forall|r: int, c: int|
                0 <= r < height && 0 <= c < width ==> #[trigger] m.at(r, c) == fill,
    {
        let mut rows: Vec<Vec<T>> = Vec::new();
        let mut r: usize = 0;
        while r < height
            invariant
                r <= height,
                rows@.len() == r,
                forall|i: int| 0 <= i < r ==> #[trigger] rows@[i]@.len() == width,
                forall|i: int, j: int| 0 <= i < r && 0 <= j < width ==> #[trigger] rows@[i]@[j] == fill,
            decreases height - r,
        {
            let mut row: Vec<T> = Vec::new();
            let mut c: usize = 0;
            while c < width
                invariant
                    c <= width,
                    row@.len() == c,
                    forall|j: int| 0 <= j < c ==> #[trigger] row@[j] == fill,
                decreases width - c,
            {
                row.push(fill);
                c += 1;
            }
            rows.push(row);
            r += 1;
        }
        Matrix { rows, columns: width }
    }

    /// Whether a ragged grid of cells fits inside `height` rows of `width`
    /// columns.
    pub open spec fn fits(cells: Seq<Vec<T>>, height: nat, width: nat) -> bool {
        cells.len() <= height && forall|r: int| 0 <= r < cells.len() ==> #[trigger] cells[r]@.len()
            <= width
    }

    /// A `height` by `width` matrix whose top-left corner holds `cells`, row
    /// by row, and whose other cells hold `fill`; `None` when `cells` has more
    /// rows, or a row more cells, than the matrix.
    pub fn from_cells(height: usize, width: usize, fill: T, cells: &Vec<Vec<T>>) -> (r: Option<
        Matrix<T>,
    >) where T: Copy
        ensures
            r is Some <==> Self::fits(cells@, height as nat, width as nat),
            r matches Some(m) ==> {
                &&& m.wf()
                &&& m.rows_spec() == height
                &&& m.columns_spec() == width
                &&& forall|i: int, j: int|
                    0 <= i < height && 0 <= j < width ==> #[trigger] m.at(i, j) == if i
                        < cells@.len() && j < cells@[i]@.len() {
                        cells@[i]@[j]
                    } else {
                        fill
                    }
            },
    {
        if cells.len() > height {
            return None;
        }
        let mut k: usize = 0;
        while k < cells.len()
            invariant
                k <= cells@.len(),
                forall|i: int| 0 <= i < k ==> #[trigger] cells@[i]@.len() <= width,
            decreases cells@.len() - k,
        {
            if cells[k].len() > width {
                return None;
            }
            k += 1;
        }
        let mut rows: Vec<Vec<T>> = Vec::new();
        let mut r: usize = 0;
        while r < height
            invariant
                Self::fits(cells@, height as nat, width as nat),
                r <= height,
                rows@.len() == r,
                forall|i: int| 0 <= i < r ==> #[trigger] rows@[i]@.len() == width,
                forall|i: int, j: int|
                    0 <= i < r && 0 <= j < width ==> #[trigger] rows@[i]@[j] == if i < cells@.len()
                        && j < cells@[i]@.len() {
                        cells@[i]@[j]
                    } else {
                        fill
                    },
            decreases height - r,
        {
            let mut row: Vec<T> = Vec::new();
            let mut c: usize = 0;
            while c < width
                invariant
                    Self::fits(cells@, height as nat, width as nat),
                    r < height,
                    c <= width,
                    row@.len() == c,
                    forall|j: int| 0 <= j < c ==> #[trigger] row@[j] == if r < cells@.len() && j
                        < cells@[r as int]@.len() {
                        cells@[r as int]@[j]
                    } else {
                        fill
                    },
                decreases width - c,
            {
                if r < cells.len() && c < cells[r].len() {
                    row.push(cells[r][c]);
                } else {
                    row.push(fill);
                }
                c += 1;
            }
            rows.push(row);
            r += 1;
        }
        Some(Matrix { rows, columns: width })
    }

    /// The square matrix of the given size with `one` on the diagonal and
    /// `zero` everywhere else.
    pub fn identity(size: usize, zero: T, one: T) -> (m: Matrix<T>) where T: Copy
        ensures
            m.wf(),
            m.rows_spec() == size,
            m.columns_spec() == size,
            forall|r: int, c: int|
                0 <= r < size && 0 <= c < size ==> #[trigger] m.at(r, c) == if r == c {
                    one
                } else {
                    zero
                },
    {
        let mut m = Matrix::new(size, size, zero);
        let mut i: usize = 0;
        while i < size
            invariant
                i <= size,
                m.wf(),
                m.rows_spec() == size,
                m.columns_spec() == size,
                forall|r: int, c: int|
                    0 <= r < size && 0 <= c < size ==> #[trigger] m.at(r, c) == if r == c && r < i {
                        one
                    } else {
                        zero
                    },
            decreases size - i,
        {
            m.set(i, i, one);
            i += 1;
        }
        m
    }

    /// Overwrites the cell at row `r`, column `c`.
    pub fn set(&mut self, r: usize, c: usize, v: T) where T: Copy
        requires
            old(self).wf(),
            r < old(self).rows_spec(),
            c < old(self).columns_spec(),
        ensures
            final(self).wf(),
            final(self).rows_spec() == old(self).rows_spec(),
            final(self).columns_spec() == old(self).columns_spec(),
            final(self).at(r as int, c as int) == v,
            forall|i: int, j: int|
                0 <= i < old(self).rows_spec() && 0 <= j < old(self).columns_spec() && (i != r
                    || j != c) ==> #[trigger] final(self).at(i, j) == old(self).at(i, j),
    {
        let mut row: Vec<T> = Vec::new();
        let mut j: usize = 0;
        while j < self.columns
            invariant
                j <= self.columns,
                r < self.rows@.len(),
                self.rows@[r as int]@.len() == self.columns,
                row@.len() == j,
                forall|k: int| 0 <= k < j ==> #[trigger] row@[k] == if k == c {
                    v
                } else {
                    self.rows@[r as int]@[k]
                },
            decreases self.columns - j,
        {
            if j == c {
                row.push(v);
            } else {
                row.push(self.rows[r][j]);
            }
            j += 1;
        }
        self.rows.set(r, row);
    }

    pub fn height(&self) -> (h: usize)
        ensures
            h == self.rows_spec(),
    {
        self.rows.len()
    }

    pub fn width(&self) -> (w: usize)
        ensures
            w == self.columns_spec(),
    {
        self.columns
    }

    pub fn is_square(&self) -> (b: bool)
        ensures
            b == self.is_square_spec(),
    {
        self.height() == self.width()
    }

    pub fn get(&self, r: usize, c: usize) -> (v: T) where T: Copy
        requires
            self.wf(),
            r < self.rows_spec(),
            c < self.columns_spec(),
        ensures
            v == self.at(r as int, c as int),
    {
        self.rows[r][c]
    }

    /// Rows and columns swapped: the cell at `(r, c)` comes from `(c, r)`.
    pub fn transpose(&self) -> (m: Matrix<T>) where T: Copy
        requires
            self.wf(),
            self.is_square_spec(),
        ensures
            m.wf(),
            m.rows_spec() == self.rows_spec(),
            m.columns_spec() == self.columns_spec(),
            forall|r: int, c: int|
                0 <= r < self.rows_spec() && 0 <= c < self.columns_spec() ==> #[trigger] m.at(r, c)
                    == self.at(c, r),
    {
        let n = self.rows.len();
        let mut rows: Vec<Vec<T>> = Vec::new();
        let mut r: usize = 0;
        while r < n
            invariant
                n == self.rows@.len(),
                n == self.columns,
                self.wf(),
                r <= n,
                rows@.len() == r,
                forall|i: int| 0 <= i < r ==> #[trigger] rows@[i]@.len() == n,
                forall|i: int, j: int|
                    0 <= i < r && 0 <= j < n ==> #[trigger] rows@[i]@[j] == self.rows@[j]@[i],
            decreases n - r,
        {
            let mut row: Vec<T> = Vec::new();
            let mut c: usize = 0;
            while c < n
                invariant
                    n == self.rows@.len(),
                    n == self.columns,
                    self.wf(),
                    r < n,
                    c <= n,
                    row@.len() == c,
                    forall|j: int| 0 <= j < c ==> #[trigger] row@[j] == self.rows@[j]@[r as int],
                decreases n - c,
            {
                row.push(self.rows[c][r]);
                c += 1;
            }
            rows.push(row);
            r += 1;
        }
        Matrix { rows, columns: n }
    }

    /// The matrix with row `r` and column `c` struck out.
    pub fn submatrix(&self, r: usize, c: usize) -> (m: Matrix<T>) where T: Copy
        requires
            self.wf(),
            self.is_square_spec(),
            r < self.rows_spec(),
            c < self.columns_spec(),
        ensures
            m.wf(),
            m.rows_spec() == self.rows_spec() - 1,
            m.columns_spec() == self.columns_spec() - 1,
            forall|i: int, j: int|
                0 <= i < m.rows_spec() && 0 <= j < m.columns_spec() ==> #[trigger] m.at(i, j)
                    == self.at(skip_index(i, r as int), skip_index(j, c as int)),
    {
        let size = self.columns;
        let mut rows: Vec<Vec<T>> = Vec::new();
        let mut ri: usize = 0;
        while ri < size
            invariant
                size == self.rows@.len(),
                size == self.columns,
                self.wf(),
                r < size,
                c < size,
                ri <= size,
                rows@.len() == if ri <= r { ri as int } else { ri - 1 },
                forall|i: int| 0 <= i < rows@.len() ==> #[trigger] rows@[i]@.len() == size - 1,
                forall|i: int, j: int|
                    0 <= i < rows@.len() && 0 <= j < size - 1 ==> #[trigger] rows@[i]@[j]
                        == self.rows@[skip_index(i, r as int)]@[skip_index(j, c as int)],
            decreases size - ri,
        {
            if ri == r {
                ri += 1;
                continue;
            }
            let mut row: Vec<T> = Vec::new();
            let mut ci: usize = 0;
            while ci < size
                invariant
                    size == self.rows@.len(),
                    size == self.columns,
                    self.wf(),
                    c < size,
                    ri < size,
                    ci <= size,
                    row@.len() == if ci <= c { ci as int } else { ci - 1 },
                    forall|j: int| 0 <= j < row@.len() ==> #[trigger] row@[j]
                        == self.rows@[ri as int]@[skip_index(j, c as int)],
                decreases size - ci,
            {
                if ci != c {
                    row.push(self.rows[ri][ci]);
                }
                ci += 1;
            }
            rows.push(row);
            ri += 1;
        }
        Matrix { rows, columns: size - 1 }
    }
}

} // verus!
