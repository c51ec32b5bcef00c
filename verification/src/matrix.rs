//! The `Matrix` type: a rectangular array of machine integers, stored
//! row-major in a flat vector, with its dimensions recorded beside it.

use vstd::prelude::*;

use crate::grid::{
    abs_int, add_fits, cofactor, col_of, det_expand, det_fits, dot_fits, dot_prefix, fill_grid, grid_add,
    grid_det, grid_mul, grid_sub, identity_grid, in_i64, inv_fits, is_grid, lemma_rm_bound,
    lemma_rm_inj, minor_grid, mul_fits, sign_of, sub_fits, tdiv, transpose_grid,
};

verus! {

/// A matrix of `i64` entries, stored row-major. The recorded row and
/// column counts always multiply to the length of the backing storage.
#[derive(Debug, Eq)]
pub struct Matrix {
    data: Vec<i64>,
    rows: usize,
    cols: usize,
}

impl Matrix {
    /// The recorded row count.
    pub closed spec fn spec_rows(&self) -> nat {
        self.rows as nat
    }

    /// The recorded column count.
    pub closed spec fn spec_cols(&self) -> nat {
        self.cols as nat
    }

    /// The structural invariant: the backing storage holds exactly one
    /// entry per coordinate pair.
    pub closed spec fn wf(&self) -> bool {
        &&& self.data@.len() == self.spec_rows() * self.spec_cols()
        &&& self.spec_rows() * self.spec_cols() <= usize::MAX
    }

    /// Structural equality: the same dimensions over the same storage.
    pub closed spec fn congruent(&self, other: &Matrix) -> bool {
        &&& self.rows == other.rows
        &&& self.cols == other.cols
        &&& self.data@ == other.data@
    }
}

impl View for Matrix {
    type V = Seq<Seq<int>>;

    closed spec fn view(&self) -> Seq<Seq<int>> {
        Seq::new(
            self.spec_rows(),
            |r: int| Seq::new(self.spec_cols(), |c: int| self.data@[r * self.spec_cols() + c] as int),
        )
    }
}

impl Matrix {
    /// The model of a matrix is always a grid of its recorded dimensions.
    pub proof fn lemma_view_grid(&self)
        ensures
            is_grid(self@, self.spec_rows(), self.spec_cols()),
    {
    }

    /// The recorded row count.
    pub fn num_rows(&self) -> (r: usize)
        ensures
            r == self.spec_rows(),
    {
        self.rows
    }

    /// The recorded column count.
    pub fn num_cols(&self) -> (c: usize)
        ensures
            c == self.spec_cols(),
    {
        self.cols
    }

    /// Reads the entry at `(r, c)`. An out-of-range coordinate is a caller
    /// error, excluded by the precondition.
    pub fn get(&self, r: usize, c: usize) -> (v: i64)
        requires
            self.wf(),
            r < self.spec_rows(),
            c < self.spec_cols(),
        ensures
            v as int == self@[r as int][c as int],
    {
        proof {
            lemma_rm_bound(r as int, c as int, self.spec_rows() as int, self.spec_cols() as int);
        }
        self.data[r * self.cols + c]
    }

    /// Writes `v` to the entry at `(r, c)`, leaving every other entry and
    /// the dimensions unchanged.
    pub fn set(&mut self, r: usize, c: usize, v: i64)
        requires
            old(self).wf(),
            r < old(self).spec_rows(),
            c < old(self).spec_cols(),
        ensures
            final(self).wf(),
            final(self).spec_rows() == old(self).spec_rows(),
            final(self).spec_cols() == old(self).spec_cols(),
            final(self)@ == old(self)@.update(
                r as int,
                old(self)@[r as int].update(c as int, v as int),
            ),
    {
        proof {
            lemma_rm_bound(r as int, c as int, self.spec_rows() as int, self.spec_cols() as int);
        }
        let idx: usize = r * self.cols + c;
        self.data[idx] = v;
        proof {
            let target = old(self)@.update(r as int, old(self)@[r as int].update(c as int, v as int));
            assert forall|a: int, b: int|
                0 <= a < self.spec_rows() && 0 <= b < self.spec_cols() implies self@[a][b]
                == target[a][b] by {
                lemma_rm_bound(a, b, self.spec_rows() as int, self.spec_cols() as int);
                lemma_rm_inj(a, b, r as int, c as int, self.spec_cols() as int);
            }
            assert(self@ =~~= target);
        }
    }

    /// Builds a matrix filled with zeroes, the additive identity of the
    /// element type.
    pub fn zeroes(r: usize, c: usize) -> (m: Matrix)
        requires
            r * c <= usize::MAX,
        ensures
            m.wf(),
            m.spec_rows() == r,
            m.spec_cols() == c,
            m@ == fill_grid(r as nat, c as nat, 0),
    {
        Matrix::filled(r, c, 0)
    }

    /// Builds a matrix filled with ones, the multiplicative identity of
    /// the element type.
    pub fn ones(r: usize, c: usize) -> (m: Matrix)
        requires
            r * c <= usize::MAX,
        ensures
            m.wf(),
            m.spec_rows() == r,
            m.spec_cols() == c,
            m@ == fill_grid(r as nat, c as nat, 1),
    {
        Matrix::filled(r, c, 1)
    }

    /// Builds a matrix with every entry equal to `v`.
    fn filled(r: usize, c: usize, v: i64) -> (m: Matrix)
        requires
            r * c <= usize::MAX,
        ensures
            m.wf(),
            m.spec_rows() == r,
            m.spec_cols() == c,
            m@ == fill_grid(r as nat, c as nat, v as int),
    {
        let total: usize = r * c;
        let mut data: Vec<i64> = Vec::new();
        let mut k: usize = 0;
        while k < total
            invariant
                k <= total,
                data@.len() == k,
                forall|t: int| 0 <= t < k ==> data@[t] == v,
            decreases total - k,
        {
            data.push(v);
            k += 1;
        }
        let m = Matrix { data, rows: r, cols: c };
        proof {
            assert forall|a: int, b: int| 0 <= a < r && 0 <= b < c implies m@[a][b] == v as int by {
                lemma_rm_bound(a, b, r as int, c as int);
            }
            assert(m@ =~~= fill_grid(r as nat, c as nat, v as int));
        }
        m
    }
}

impl Matrix {
    /// Builds the `size` by `size` identity matrix: ones on the diagonal,
    /// zeroes elsewhere.
    pub fn identity(size: usize) -> (m: Matrix)
        requires
            size * size <= usize::MAX,
        ensures
            m.wf(),
            m.spec_rows() == size,
            m.spec_cols() == size,
            m@ == identity_grid(size as nat),
    {
        let mut base = Matrix::zeroes(size, size);
        let mut i: usize = 0;
        while i < size
            invariant
                i <= size,
                base.wf(),
                base.spec_rows() == size,
                base.spec_cols() == size,
                forall|a: int, b: int|
                    #![auto]
                    0 <= a < size && 0 <= b < size ==> base@[a][b] == if a == b && a < i {
                        1int
                    } else {
                        0int
                    },
            decreases size - i,
        {
            base.set(i, i, 1);
            i += 1;
        }
        proof {
            assert(base@ =~~= identity_grid(size as nat));
        }
        base
    }

    /// Builds a matrix from a sequence of rows. The input must be
    /// non-empty, with every row of the same non-zero length; a ragged or
    /// empty input is a caller error, excluded by the precondition.
    pub fn from_rows(rows: &Vec<Vec<i64>>) -> (m: Matrix)
        requires
            rows@.len() > 0,
            rows@[0]@.len() > 0,
            forall|i: int| 0 <= i < rows@.len() ==> (#[trigger] rows@[i])@.len() == rows@[0]@.len(),
            rows@.len() * rows@[0]@.len() <= usize::MAX,
        ensures
            m.wf(),
            m.spec_rows() == rows@.len(),
            m.spec_cols() == rows@[0]@.len(),
            forall|i: int, j: int|
                0 <= i < rows@.len() && 0 <= j < rows@[0]@.len() ==> m@[i][j] == (#[trigger] rows@[i]@[j]) as int,
    {
        let r: usize = rows.len();
        let c: usize = rows[0].len();
        let mut m = Matrix::zeroes(r, c);
        let mut x: usize = 0;
        while x < r
            invariant
                x <= r,
                r == rows@.len(),
                c == rows@[0]@.len(),
                forall|i: int| 0 <= i < rows@.len() ==> (#[trigger] rows@[i])@.len() == c,
                m.wf(),
                m.spec_rows() == r,
                m.spec_cols() == c,
                forall|a: int, b: int|
                    #![auto]
                    0 <= a < x && 0 <= b < c ==> m@[a][b] == rows@[a]@[b] as int,
            decreases r - x,
        {
            let mut y: usize = 0;
            while y < c
                invariant
                    x < r,
                    y <= c,
                    r == rows@.len(),
                    c == rows@[0]@.len(),
                    forall|i: int| 0 <= i < rows@.len() ==> (#[trigger] rows@[i])@.len() == c,
                    m.wf(),
                    m.spec_rows() == r,
                    m.spec_cols() == c,
                    forall|a: int, b: int|
                        #![auto]
                        0 <= a < x && 0 <= b < c ==> m@[a][b] == rows@[a]@[b] as int,
                    forall|b: int| #![auto] 0 <= b < y ==> m@[x as int][b] == rows@[x as int]@[b] as int,
                decreases c - y,
            {
                let v: i64 = rows[x][y];
                m.set(x, y, v);
                y += 1;
            }
            x += 1;
        }
        m
    }

    /// Builds a matrix of the requested dimensions whose entry at `(x, y)`
    /// is a value the given function may return for `(x, y)`. Cells are
    /// filled in row-major order; the function is expected to be pure.
    pub fn from_closure<F: Fn(usize, usize) -> i64>(r: usize, c: usize, func: F) -> (m: Matrix)
        requires
            r * c <= usize::MAX,
            forall|x: usize, y: usize| x < r && y < c ==> call_requires(func, (x, y)),
        ensures
            m.wf(),
            m.spec_rows() == r,
            m.spec_cols() == c,
            forall|x: int, y: int|
                #![auto]
                0 <= x < r && 0 <= y < c ==> call_ensures(
                    func,
                    (x as usize, y as usize),
                    m@[x][y] as i64,
                ),
    {
        let mut m = Matrix::zeroes(r, c);
        let mut x: usize = 0;
        while x < r
            invariant
                x <= r,
                m.wf(),
                m.spec_rows() == r,
                m.spec_cols() == c,
                forall|a: usize, b: usize| a < r && b < c ==> call_requires(func, (a, b)),
                forall|a: int, b: int|
                    #![auto]
                    0 <= a < x && 0 <= b < c ==> call_ensures(
                        func,
                        (a as usize, b as usize),
                        m@[a][b] as i64,
                    ),
            decreases r - x,
        {
            let mut y: usize = 0;
            while y < c
                invariant
                    x < r,
                    y <= c,
                    m.wf(),
                    m.spec_rows() == r,
                    m.spec_cols() == c,
                    forall|a: usize, b: usize| a < r && b < c ==> call_requires(func, (a, b)),
                    forall|a: int, b: int|
                        #![auto]
                        0 <= a < x && 0 <= b < c ==> call_ensures(
                            func,
                            (a as usize, b as usize),
                            m@[a][b] as i64,
                        ),
                    forall|b: int|
                        #![auto]
                        0 <= b < y ==> call_ensures(
                            func,
                            (x, b as usize),
                            m@[x as int][b] as i64,
                        ),
                decreases c - y,
            {
                let v: i64 = func(x, y);
                m.set(x, y, v);
                y += 1;
            }
            x += 1;
        }
        m
    }
}

impl Matrix {
    /// The elementwise sum of two matrices of equal dimensions. Each
    /// sum must fit in the element type; that is the machine's limit, not
    /// a rule of the algebra.
    pub fn add(&self, rhs: &Matrix) -> (m: Matrix)
        requires
            self.wf(),
            rhs.wf(),
            self.spec_rows() == rhs.spec_rows(),
            self.spec_cols() == rhs.spec_cols(),
            add_fits(self@, rhs@),
        ensures
            m.wf(),
            m.spec_rows() == self.spec_rows(),
            m.spec_cols() == self.spec_cols(),
            m@ == grid_add(self@, rhs@),
    {
        let mut m = self.clone_matrix();
        m.add_assign(rhs);
        m
    }

    /// Adds `rhs` into `self`, element by element.
    pub fn add_assign(&mut self, rhs: &Matrix)
        requires
            old(self).wf(),
            rhs.wf(),
            old(self).spec_rows() == rhs.spec_rows(),
            old(self).spec_cols() == rhs.spec_cols(),
            add_fits(old(self)@, rhs@),
        ensures
            final(self).wf(),
            final(self).spec_rows() == old(self).spec_rows(),
            final(self).spec_cols() == old(self).spec_cols(),
            final(self)@ == grid_add(old(self)@, rhs@),
    {
        let r: usize = self.rows;
        let c: usize = self.cols;
        let mut x: usize = 0;
        while x < r
            invariant
                x <= r,
                self.wf(),
                rhs.wf(),
                self.spec_rows() == r,
                self.spec_cols() == c,
                rhs.spec_rows() == r,
                rhs.spec_cols() == c,
                add_fits(old(self)@, rhs@),
                old(self).spec_rows() == r,
                old(self).spec_cols() == c,
                forall|a: int, b: int|
                    #![auto]
                    0 <= a < x && 0 <= b < c ==> self@[a][b] == old(self)@[a][b] + rhs@[a][b],
                forall|a: int, b: int|
                    #![auto]
                    x <= a < r && 0 <= b < c ==> self@[a][b] == old(self)@[a][b],
            decreases r - x,
        {
            let mut y: usize = 0;
            while y < c
                invariant
                    x < r,
                    y <= c,
                    self.wf(),
                    rhs.wf(),
                    self.spec_rows() == r,
                    self.spec_cols() == c,
                    rhs.spec_rows() == r,
                    rhs.spec_cols() == c,
                    add_fits(old(self)@, rhs@),
                    old(self).spec_rows() == r,
                    old(self).spec_cols() == c,
                    forall|a: int, b: int|
                        #![auto]
                        0 <= a < x && 0 <= b < c ==> self@[a][b] == old(self)@[a][b] + rhs@[a][b],
                    forall|b: int|
                        #![auto]
                        0 <= b < y ==> self@[x as int][b] == old(self)@[x as int][b] + rhs@[x as int][b],
                    forall|a: int, b: int|
                        #![auto]
                        0 <= a < r && 0 <= b < c && (a > x || (a == x && b >= y)) ==> self@[a][b]
                            == old(self)@[a][b],
                decreases c - y,
            {
                proof {
                    assert(self@[x as int][y as int] == old(self)@[x as int][y as int]);
                    assert(in_i64(old(self)@[x as int][y as int] + rhs@[x as int][y as int]));
                }
                let v: i64 = self.get(x, y) + rhs.get(x, y);
                self.set(x, y, v);
                y += 1;
            }
            x += 1;
        }
        proof {
            assert(self@ =~~= grid_add(old(self)@, rhs@));
        }
    }

    /// The elementwise difference of two matrices of equal dimensions.
    pub fn sub(&self, rhs: &Matrix) -> (m: Matrix)
        requires
            self.wf(),
            rhs.wf(),
            self.spec_rows() == rhs.spec_rows(),
            self.spec_cols() == rhs.spec_cols(),
            sub_fits(self@, rhs@),
        ensures
            m.wf(),
            m.spec_rows() == self.spec_rows(),
            m.spec_cols() == self.spec_cols(),
            m@ == grid_sub(self@, rhs@),
    {
        let mut m = self.clone_matrix();
        m.sub_assign(rhs);
        m
    }

    /// Subtracts `rhs` from `self`, element by element.
    pub fn sub_assign(&mut self, rhs: &Matrix)
        requires
            old(self).wf(),
            rhs.wf(),
            old(self).spec_rows() == rhs.spec_rows(),
            old(self).spec_cols() == rhs.spec_cols(),
            sub_fits(old(self)@, rhs@),
        ensures
            final(self).wf(),
            final(self).spec_rows() == old(self).spec_rows(),
            final(self).spec_cols() == old(self).spec_cols(),
            final(self)@ == grid_sub(old(self)@, rhs@),
    {
        let r: usize = self.rows;
        let c: usize = self.cols;
        let mut x: usize = 0;
        while x < r
            invariant
                x <= r,
                self.wf(),
                rhs.wf(),
                self.spec_rows() == r,
                self.spec_cols() == c,
                rhs.spec_rows() == r,
                rhs.spec_cols() == c,
                sub_fits(old(self)@, rhs@),
                old(self).spec_rows() == r,
                old(self).spec_cols() == c,
                forall|a: int, b: int|
                    #![auto]
                    0 <= a < x && 0 <= b < c ==> self@[a][b] == old(self)@[a][b] - rhs@[a][b],
                forall|a: int, b: int|
                    #![auto]
                    x <= a < r && 0 <= b < c ==> self@[a][b] == old(self)@[a][b],
            decreases r - x,
        {
            let mut y: usize = 0;
            while y < c
                invariant
                    x < r,
                    y <= c,
                    self.wf(),
                    rhs.wf(),
                    self.spec_rows() == r,
                    self.spec_cols() == c,
                    rhs.spec_rows() == r,
                    rhs.spec_cols() == c,
                    sub_fits(old(self)@, rhs@),
                    old(self).spec_rows() == r,
                    old(self).spec_cols() == c,
                    forall|a: int, b: int|
                        #![auto]
                        0 <= a < x && 0 <= b < c ==> self@[a][b] == old(self)@[a][b] - rhs@[a][b],
                    forall|b: int|
                        #![auto]
                        0 <= b < y ==> self@[x as int][b] == old(self)@[x as int][b] - rhs@[x as int][b],
                    forall|a: int, b: int|
                        #![auto]
                        0 <= a < r && 0 <= b < c && (a > x || (a == x && b >= y)) ==> self@[a][b]
                            == old(self)@[a][b],
                decreases c - y,
            {
                proof {
                    assert(self@[x as int][y as int] == old(self)@[x as int][y as int]);
                    assert(in_i64(old(self)@[x as int][y as int] - rhs@[x as int][y as int]));
                }
                let v: i64 = self.get(x, y) - rhs.get(x, y);
                self.set(x, y, v);
                y += 1;
            }
            x += 1;
        }
        proof {
            assert(self@ =~~= grid_sub(old(self)@, rhs@));
        }
    }

    /// An independent copy of the matrix.
    pub fn clone_matrix(&self) -> (m: Matrix)
        requires
            self.wf(),
        ensures
            m.wf(),
            m.spec_rows() == self.spec_rows(),
            m.spec_cols() == self.spec_cols(),
            m@ == self@,
    {
        let mut data: Vec<i64> = Vec::new();
        let n: usize = self.data.len();
        let mut k: usize = 0;
        while k < n
            invariant
                k <= n,
                n == self.data@.len(),
                data@.len() == k,
                forall|t: int| 0 <= t < k ==> data@[t] == self.data@[t],
            decreases n - k,
        {
            data.push(self.data[k]);
            k += 1;
        }
        let m = Matrix { data, rows: self.rows, cols: self.cols };
        proof {
            assert(m.data@ =~= self.data@);
            assert(m@ =~~= self@);
        }
        m
    }

    /// The transpose: a matrix with the dimensions swapped whose entry at
    /// `(x, y)` is this matrix's entry at `(y, x)`. Always a fresh copy.
    pub fn transpose(&self) -> (m: Matrix)
        requires
            self.wf(),
        ensures
            m.wf(),
            m.spec_rows() == self.spec_cols(),
            m.spec_cols() == self.spec_rows(),
            m@ == transpose_grid(self@, self.spec_cols()),
    {
        proof {
            vstd::arithmetic::mul::lemma_mul_is_commutative(
                self.spec_cols() as int,
                self.spec_rows() as int,
            );
        }
        let r: usize = self.cols;
        let c: usize = self.rows;
        let mut m = Matrix::zeroes(r, c);
        let mut x: usize = 0;
        while x < r
            invariant
                x <= r,
                self.wf(),
                self.spec_rows() == c,
                self.spec_cols() == r,
                m.wf(),
                m.spec_rows() == r,
                m.spec_cols() == c,
                forall|a: int, b: int|
                    #![auto]
                    0 <= a < x && 0 <= b < c ==> m@[a][b] == self@[b][a],
            decreases r - x,
        {
            let mut y: usize = 0;
            while y < c
                invariant
                    x < r,
                    y <= c,
                    self.wf(),
                    self.spec_rows() == c,
                    self.spec_cols() == r,
                    m.wf(),
                    m.spec_rows() == r,
                    m.spec_cols() == c,
                    forall|a: int, b: int|
                        #![auto]
                        0 <= a < x && 0 <= b < c ==> m@[a][b] == self@[b][a],
                    forall|b: int| #![auto] 0 <= b < y ==> m@[x as int][b] == self@[b][x as int],
                decreases c - y,
            {
                let v: i64 = self.get(y, x);
                m.set(x, y, v);
                y += 1;
            }
            x += 1;
        }
        proof {
            assert(m@ =~~= transpose_grid(self@, self.spec_cols()));
        }
        m
    }

    /// The matrix with row `r` and column `c` removed, relative order
    /// kept. The excluded coordinates must be in range.
    pub fn submatrix(&self, r: usize, c: usize) -> (m: Matrix)
        requires
            self.wf(),
            r < self.spec_rows(),
            c < self.spec_cols(),
        ensures
            m.wf(),
            m.spec_rows() == self.spec_rows() - 1,
            m.spec_cols() == self.spec_cols() - 1,
            m@ == minor_grid(self@, r as int, c as int),
    {
        proof {
            vstd::arithmetic::mul::lemma_mul_upper_bound(
                self.spec_rows() as int - 1,
                self.spec_rows() as int,
                self.spec_cols() as int - 1,
                self.spec_cols() as int,
            );
        }
        let nr: usize = self.rows - 1;
        let nc: usize = self.cols - 1;
        let mut m = Matrix::zeroes(nr, nc);
        let mut x: usize = 0;
        while x < nr
            invariant
                x <= nr,
                self.wf(),
                nr == self.spec_rows() - 1,
                nc == self.spec_cols() - 1,
                r < self.spec_rows(),
                c < self.spec_cols(),
                m.wf(),
                m.spec_rows() == nr,
                m.spec_cols() == nc,
                forall|a: int, b: int|
                    #![auto]
                    0 <= a < x && 0 <= b < nc ==> m@[a][b] == minor_grid(self@, r as int, c as int)[a][b],
            decreases nr - x,
        {
            let sx: usize = if x >= r {
                x + 1
            } else {
                x
            };
            let mut y: usize = 0;
            while y < nc
                invariant
                    x < nr,
                    y <= nc,
                    self.wf(),
                    nr == self.spec_rows() - 1,
                    nc == self.spec_cols() - 1,
                    r < self.spec_rows(),
                    c < self.spec_cols(),
                    sx == if x >= r { x + 1 } else { x as int },
                    m.wf(),
                    m.spec_rows() == nr,
                    m.spec_cols() == nc,
                    forall|a: int, b: int|
                        #![auto]
                        0 <= a < x && 0 <= b < nc ==> m@[a][b] == minor_grid(self@, r as int, c as int)[a][b],
                    forall|b: int|
                        #![auto]
                        0 <= b < y ==> m@[x as int][b] == minor_grid(self@, r as int, c as int)[x as int][b],
                decreases nc - y,
            {
                let sy: usize = if y >= c {
                    y + 1
                } else {
                    y
                };
                let v: i64 = self.get(sx, sy);
                m.set(x, y, v);
                y += 1;
            }
            x += 1;
        }
        proof {
            assert(m@ =~~= minor_grid(self@, r as int, c as int));
        }
        m
    }
}

impl Matrix {
    /// The matrix product. The left operand's column count must equal the
    /// right operand's row count; the result has the left operand's row
    /// count and the right operand's column count. Entry `(x, y)` is the
    /// dot product of left row `x` and right column `y`, summed in
    /// ascending index order.
    pub fn mul(&self, rhs: &Matrix) -> (m: Matrix)
        requires
            self.wf(),
            rhs.wf(),
            self.spec_cols() == rhs.spec_rows(),
            self.spec_rows() * rhs.spec_cols() <= usize::MAX,
            mul_fits(self@, rhs@, rhs.spec_cols()),
        ensures
            m.wf(),
            m.spec_rows() == self.spec_rows(),
            m.spec_cols() == rhs.spec_cols(),
            m@ == grid_mul(self@, rhs@, rhs.spec_cols()),
    {
        let r: usize = self.rows;
        let p: usize = rhs.cols;
        let inner: usize = self.cols;
        let mut m = Matrix::zeroes(r, p);
        let mut x: usize = 0;
        while x < r
            invariant
                x <= r,
                self.wf(),
                rhs.wf(),
                self.spec_rows() == r,
                self.spec_cols() == inner,
                rhs.spec_rows() == inner,
                rhs.spec_cols() == p,
                mul_fits(self@, rhs@, p as nat),
                m.wf(),
                m.spec_rows() == r,
                m.spec_cols() == p,
                forall|a: int, b: int|
                    #![auto]
                    0 <= a < x && 0 <= b < p ==> m@[a][b] == dot_prefix(
                        self@[a],
                        col_of(rhs@, b),
                        inner as int,
                    ),
            decreases r - x,
        {
            let mut y: usize = 0;
            while y < p
                invariant
                    x < r,
                    y <= p,
                    self.wf(),
                    rhs.wf(),
                    self.spec_rows() == r,
                    self.spec_cols() == inner,
                    rhs.spec_rows() == inner,
                    rhs.spec_cols() == p,
                    mul_fits(self@, rhs@, p as nat),
                    m.wf(),
                    m.spec_rows() == r,
                    m.spec_cols() == p,
                    forall|a: int, b: int|
                        #![auto]
                        0 <= a < x && 0 <= b < p ==> m@[a][b] == dot_prefix(
                            self@[a],
                            col_of(rhs@, b),
                            inner as int,
                        ),
                    forall|b: int|
                        #![auto]
                        0 <= b < y ==> m@[x as int][b] == dot_prefix(
                            self@[x as int],
                            col_of(rhs@, b),
                            inner as int,
                        ),
                decreases p - y,
            {
                proof {
                    assert(self@[x as int].len() == inner);
                    assert(dot_fits(
                        self@[x as int],
                        col_of(rhs@, y as int),
                        self@[x as int].len() as int,
                    ));
                }
                let mut acc: i64 = 0;
                let mut i: usize = 0;
                while i < inner
                    invariant
                        x < r,
                        y < p,
                        i <= inner,
                        self.wf(),
                        rhs.wf(),
                        self.spec_rows() == r,
                        self.spec_cols() == inner,
                        rhs.spec_rows() == inner,
                        rhs.spec_cols() == p,
                        dot_fits(self@[x as int], col_of(rhs@, y as int), inner as int),
                        acc as int == dot_prefix(self@[x as int], col_of(rhs@, y as int), i as int),
                    decreases inner - i,
                {
                    proof {
                        assert(in_i64(self@[x as int][i as int] * col_of(rhs@, y as int)[i as int]));
                        assert(col_of(rhs@, y as int)[i as int] == rhs@[i as int][y as int]);
                        assert(in_i64(dot_prefix(self@[x as int], col_of(rhs@, y as int), i + 1)));
                    }
                    let t: i64 = self.get(x, i) * rhs.get(i, y);
                    acc = acc + t;
                    i += 1;
                }
                m.set(x, y, acc);
                y += 1;
            }
            x += 1;
        }
        proof {
            assert(m@ =~~= grid_mul(self@, rhs@, rhs.spec_cols()));
        }
        m
    }
}

impl Matrix {
    /// The determinant of a square matrix, by recursive cofactor
    /// expansion along the first row. The cost grows factorially with the
    /// order; the library is meant for small matrices. Every intermediate
    /// value of the expansion must fit in the element type.
    pub fn determinant(&self) -> (d: i64)
        requires
            self.wf(),
            self.spec_rows() == self.spec_cols(),
            det_fits(self@),
        ensures
            d as int == grid_det(self@),
        decreases self.spec_rows(),
    {
        let n: usize = self.rows;
        if n == 0 {
            return 1;
        }
        if n == 1 {
            return self.get(0, 0);
        }
        let mut acc: i64 = 0;
        let mut j: usize = 0;
        while j < n
            invariant
                j <= n,
                n >= 2,
                self.wf(),
                self.spec_rows() == n,
                self.spec_cols() == n,
                det_fits(self@),
                acc as int == det_expand(self@, j as int),
            decreases n - j,
        {
            proof {
                assert(det_fits(minor_grid(self@, 0, j as int)));
                assert(in_i64(self@[0][j as int] * grid_det(minor_grid(self@, 0, j as int))));
                assert(in_i64(det_expand(self@, j + 1)));
            }
            let sub = self.submatrix(0, j);
            let sd: i64 = sub.determinant();
            let e: i64 = self.get(0, j);
            let t: i64 = e * sd;
            proof {
                let a = self@[0][j as int];
                let dd = grid_det(minor_grid(self@, 0, j as int));
                assert((-a) * dd == -(a * dd)) by (nonlinear_arith);
            }
            if j % 2 == 0 {
                acc = acc + t;
            } else {
                acc = acc - t;
            }
            j += 1;
        }
        acc
    }
}

impl Matrix {
    /// Attempts to invert a square matrix by the adjugate method: entry
    /// `(i, j)` of the result is the `(j, i)` cofactor divided by the
    /// determinant, with the machine's truncating division. Returns
    /// nothing exactly when the determinant is zero (a singular matrix is
    /// a normal outcome, not an error). Every intermediate value of the
    /// computation must fit in the element type.
    pub fn inverse(&self) -> (r: Option<Matrix>)
        requires
            self.wf(),
            self.spec_rows() == self.spec_cols(),
            inv_fits(self@),
        ensures
            r is None <==> grid_det(self@) == 0,
            match r {
                None => true,
                Some(m) => {
                    &&& m.wf()
                    &&& m.spec_rows() == self.spec_rows()
                    &&& m.spec_cols() == self.spec_cols()
                    &&& forall|i: int, j: int|
                        0 <= i < self.spec_rows() && 0 <= j < self.spec_cols() ==> m@[i][j] == tdiv(
                            #[trigger] cofactor(self@, j, i),
                            grid_det(self@),
                        )
                },
            },
    {
        let n: usize = self.rows;
        let d: i64 = self.determinant();
        if d == 0 {
            return None;
        }
        let mut m = Matrix::zeroes(n, n);
        let mut i: usize = 0;
        while i < n
            invariant
                i <= n,
                self.wf(),
                self.spec_rows() == n,
                self.spec_cols() == n,
                inv_fits(self@),
                d as int == grid_det(self@),
                d != 0,
                m.wf(),
                m.spec_rows() == n,
                m.spec_cols() == n,
                forall|a: int, b: int|
                    0 <= a < i && 0 <= b < n ==> m@[a][b] == tdiv(
                        #[trigger] cofactor(self@, b, a),
                        grid_det(self@),
                    ),
            decreases n - i,
        {
            let mut j: usize = 0;
            while j < n
                invariant
                    i < n,
                    j <= n,
                    self.wf(),
                    self.spec_rows() == n,
                    self.spec_cols() == n,
                    inv_fits(self@),
                    d as int == grid_det(self@),
                    d != 0,
                    m.wf(),
                    m.spec_rows() == n,
                    m.spec_cols() == n,
                    forall|a: int, b: int|
                        0 <= a < i && 0 <= b < n ==> m@[a][b] == tdiv(
                            #[trigger] cofactor(self@, b, a),
                            grid_det(self@),
                        ),
                    forall|b: int|
                        0 <= b < j ==> m@[i as int][b] == tdiv(
                            #[trigger] cofactor(self@, b, i as int),
                            grid_det(self@),
                        ),
                decreases n - j,
            {
                proof {
                    assert(det_fits(minor_grid(self@, j as int, i as int)));
                    assert(in_i64(cofactor(self@, j as int, i as int)));
                    assert(in_i64(tdiv(cofactor(self@, j as int, i as int), grid_det(self@))));
                }
                let sub = self.submatrix(j, i);
                let sd: i64 = sub.determinant();
                proof {
                    let dd = grid_det(minor_grid(self@, j as int, i as int));
                    assert(cofactor(self@, j as int, i as int) == sign_of(j as int + i as int) * dd);
                    if (i as int) % 2 == (j as int) % 2 {
                        assert((j as int + i as int) % 2 == 0);
                        assert(cofactor(self@, j as int, i as int) == dd);
                    } else {
                        assert((j as int + i as int) % 2 == 1);
                        assert(cofactor(self@, j as int, i as int) == -dd);
                    }
                }
                let num: i64 = if (i % 2) == (j % 2) {
                    sd
                } else {
                    -sd
                };
                proof {
                    assert(num as int == cofactor(self@, j as int, i as int));
                }
                let q: i64 = tdiv64(num, d);
                m.set(i, j, q);
                j += 1;
            }
            i += 1;
        }
        Some(m)
    }
}

/// The absolute value of a machine integer, widened so that the smallest
/// value is representable.
pub(crate) fn abs_u64(x: i64) -> (r: u64)
    ensures
        r as int == abs_int(x as int),
{
    if x >= 0 {
        x as u64
    } else {
        let w: i128 = x as i128;
        (-w) as u64
    }
}

/// Signed division truncating toward zero, computed on magnitudes. The
/// quotient must fit in the element type (it does not only for the
/// smallest value divided by minus one).
fn tdiv64(a: i64, b: i64) -> (q: i64)
    requires
        b != 0,
        in_i64(tdiv(a as int, b as int)),
    ensures
        q as int == tdiv(a as int, b as int),
{
    let ua: u64 = abs_u64(a);
    let ub: u64 = abs_u64(b);
    let uq: u64 = ua / ub;
    if (a < 0) != (b < 0) {
        let w: i128 = uq as i128;
        (-w) as i64
    } else {
        uq as i64
    }
}

impl PartialEq for Matrix {
    /// Two matrices are equal when their dimensions and every entry agree.
    fn eq(&self, other: &Matrix) -> (r: bool) {
        let same = self.rows == other.rows && self.cols == other.cols && self.data == other.data;
        proof {
            if same {
                assert(self.data@ =~= other.data@);
            } else if self.rows == other.rows && self.cols == other.cols {
                if self.data@ == other.data@ {
                    assert(self.data@.len() == other.data@.len());
                    assert forall|i: int| 0 <= i < self.data@.len() implies self.data@[i]
                        == other.data@[i] by {}
                    assert(false);
                }
            }
        }
        same
    }
}

impl vstd::std_specs::cmp::PartialEqSpecImpl for Matrix {
    open spec fn obeys_eq_spec() -> bool {
        true
    }

    open spec fn eq_spec(&self, other: &Matrix) -> bool {
        self.congruent(other)
    }
}

} // verus!
