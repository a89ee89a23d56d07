//! Dense row-major matrices.
use vstd::prelude::*;
use rand::distributions::{Distribution, Standard};
use rand::rngs::StdRng;
use crate::error::Error;
use crate::rng::{next, seeded};
use crate::grid::{
    column_normalized, dot_defined, dot_prefix, dot_trace, max_scan, min_scan, rescaled,
    rescales_to, Grid,
};
use core::ops::{Add, Div, Mul, Range, Sub};
use crate::scalar::{difference_of, differs, is_zero, product_of, sum_of};

verus! {

/// A dense matrix of `m` rows and `n` columns, stored row by row.
#[derive(Debug)]
pub struct Matrix<T> {
    m: usize,
    n: usize,
    arr: Vec<T>,
}

impl<T> View for Matrix<T> {
    type V = Grid<T>;

    /// The matrix as a grid: row `i` is the `i`-th run of `n` stored entries.
    closed spec fn view(&self) -> Grid<T> {
        Grid::from_flat(self.m as nat, self.n as nat, self.arr@)
    }
}

impl<T: Copy> Clone for Matrix<T> {
    /// A matrix with the same entries.
    fn clone(&self) -> (r: Matrix<T>)
        ensures
            r@ == self@,
    {
        proof {
            use_type_invariant(self);
        }
        Matrix { m: self.m, n: self.n, arr: vstd::slice::slice_to_vec(self.arr.as_slice()) }
    }
}

/// Where the cell `(i, j)` of a matrix with `n` columns is stored.
proof fn lemma_offset(m: int, n: int, i: int, j: int)
    requires
        0 <= i < m,
        0 <= j < n,
    ensures
        0 <= i * n,
        i * n + n <= m * n,
        0 <= i * n + j < m * n,
{
    assert(0 <= i * n && i * n + n <= m * n) by (nonlinear_arith)
        requires
            0 <= i < m,
            0 <= n,
    ;
}

impl<T> Matrix<T> {
    #[verifier::type_invariant]
    spec fn inv(self) -> bool {
        self.arr@.len() == self.m * self.n
    }

    /// The view is a well-formed grid of `m` rows and `n` columns.
    proof fn lemma_shape(self)
        requires
            self.inv(),
        ensures
            self@.wf(),
            self@.has_shape(self.m as nat, self.n as nat),
            self.m * self.n <= usize::MAX,
    {
        assert(self.arr.len() == self.arr@.len());
        assert forall|i: int| 0 <= i < self@.rows.len() implies (#[trigger] self@.rows[i]).len()
            == self@.width by {
            if self.n > 0 {
                lemma_offset(self.m as int, self.n as int, i, 0);
            } else {
                assert(i * self.n == 0) by (nonlinear_arith)
                    requires
                        self.n == 0,
                ;
            }
        }
    }

    /// The cell `(i, j)` of the view is the stored entry at `i * n + j`.
    proof fn lemma_cell(self, i: int, j: int)
        requires
            self.inv(),
            0 <= i < self.m,
            0 <= j < self.n,
        ensures
            0 <= i * self.n + j < self.arr@.len(),
            self@.at(i, j) == self.arr@[i * self.n + j],
    {
        lemma_offset(self.m as int, self.n as int, i, j);
    }

    /// The number of rows and the number of columns.
    pub fn size(&self) -> (r: (usize, usize))
        ensures
            self@.wf(),
            self@.has_shape(r.0 as nat, r.1 as nat),
    {
        proof {
            use_type_invariant(self);
            self.lemma_shape();
        }
        (self.m, self.n)
    }

    /// The number of rows.
    pub fn rows(&self) -> (r: usize)
        ensures
            r == self@.height(),
    {
        proof {
            use_type_invariant(self);
            self.lemma_shape();
        }
        self.m
    }

    /// The number of columns.
    pub fn cols(&self) -> (r: usize)
        ensures
            r == self@.width,
    {
        proof {
            use_type_invariant(self);
            self.lemma_shape();
        }
        self.n
    }

    /// The entry in row `i`, column `j`, for a cell known to lie in the matrix.
    fn entry(&self, i: usize, j: usize) -> (x: T) where T: Copy
        requires
            self@.has(i as int, j as int),
        ensures
            x == self@.at(i as int, j as int),
    {
        proof {
            use_type_invariant(self);
            self.lemma_shape();
            self.lemma_cell(i as int, j as int);
        }
        self.arr[i * self.n + j]
    }

    /// The `m` by `n` matrix whose entry `(i, j)` is `f(i, j)`. The entries are
    /// computed row by row, each row from left to right.
    pub fn from_fn<F: Fn(usize, usize) -> T>(m: usize, n: usize, f: F) -> (r: Matrix<T>)
        requires
            m * n <= usize::MAX,
            forall|i: usize, j: usize| i < m && j < n ==> call_requires(f, (i, j)),
        ensures
            r@.wf(),
            r@.has_shape(m as nat, n as nat),
            forall|i: int, j: int|
                r@.has(i, j) ==> call_ensures(f, (i as usize, j as usize), #[trigger] r@.at(i, j)),
    {
        let mut arr: Vec<T> = Vec::new();
        let mut i: usize = 0;
        while i < m
            invariant
                i <= m,
                m * n <= usize::MAX,
                arr@.len() == i * n,
                forall|i: usize, j: usize| i < m && j < n ==> call_requires(f, (i, j)),
                forall|k: int|
                    0 <= k < arr@.len() ==> call_ensures(
                        f,
                        ((k / (n as int)) as usize, (k % (n as int)) as usize),
                        #[trigger] arr@[k],
                    ),
            decreases m - i,
        {
            let mut j: usize = 0;
            while j < n
                invariant
                    i < m,
                    j <= n,
                    m * n <= usize::MAX,
                    arr@.len() == i * n + j,
                    forall|i: usize, j: usize| i < m && j < n ==> call_requires(f, (i, j)),
                    forall|k: int|
                        0 <= k < arr@.len() ==> call_ensures(
                            f,
                            ((k / (n as int)) as usize, (k % (n as int)) as usize),
                            #[trigger] arr@[k],
                        ),
                decreases n - j,
            {
                let x = f(i, j);
                proof {
                    lemma_offset(m as int, n as int, i as int, j as int);
                    vstd::arithmetic::div_mod::lemma_fundamental_div_mod_converse(
                        i * n + j,
                        n as int,
                        i as int,
                        j as int,
                    );
                }
                arr.push(x);
                j += 1;
            }
            proof {
                assert((i + 1) * n == i * n + n) by (nonlinear_arith);
            }
            i += 1;
        }
        let r = Matrix { m, n, arr };
        proof {
            r.lemma_shape();
            assert forall|i: int, j: int| r@.has(i, j) implies call_ensures(
                f,
                (i as usize, j as usize),
                #[trigger] r@.at(i, j),
            ) by {
                r.lemma_cell(i, j);
                vstd::arithmetic::div_mod::lemma_fundamental_div_mod_converse(
                    i * n + j,
                    n as int,
                    i,
                    j,
                );
            }
        }
        r
    }

    /// The entry in row `i`, column `j`; `IndexOutOfBounds` where the matrix
    /// has no such cell.
    pub fn get(&self, i: usize, j: usize) -> (r: Result<T, Error>) where T: Copy
        ensures
            self@.has(i as int, j as int) ==> r == Ok::<T, Error>(self@.at(i as int, j as int)),
            !self@.has(i as int, j as int) ==> r == Err::<T, Error>(Error::IndexOutOfBounds),
    {
        proof {
            use_type_invariant(self);
            self.lemma_shape();
        }
        if i < self.m && j < self.n {
            Ok(self.entry(i, j))
        } else {
            Err(Error::IndexOutOfBounds)
        }
    }

    /// The matrix whose entry `(j, i)` is this matrix's entry `(i, j)`.
    pub fn transpose(&self) -> (r: Matrix<T>) where T: Copy
        ensures
            r@ == self@.transposed(),
    {
        proof {
            use_type_invariant(self);
            self.lemma_shape();
            assert(self.n * self.m == self.m * self.n) by (nonlinear_arith);
        }
        let pick = |j: usize, i: usize| -> (x: T)
            requires
                self@.has(i as int, j as int),
            ensures
                x == self@.at(i as int, j as int),
        {
            self.entry(i, j)
        };
        let r = Matrix::from_fn(self.n, self.m, pick);
        proof {
            r@.lemma_equal(self@.transposed());
        }
        r
    }

    /// The `m` by `n` matrix of zeros.
    pub fn new(m: usize, n: usize) -> (r: Matrix<T>) where T: Copy + Default
        requires
            m * n <= usize::MAX,
        ensures
            r@.wf(),
            r@.has_shape(m as nat, n as nat),
            r@.all_zero(),
    {
        let zero = T::default();
        let fill = |i: usize, j: usize| -> (x: T)
            ensures
                x == zero,
        {
            zero
        };
        Matrix::from_fn(m, n, fill)
    }

    /// The `m` by `n` matrix whose rows are the consecutive runs of `n` entries
    /// of `arr`; `ShapeMismatch` unless `arr` holds exactly `m * n` entries.
    pub fn from(m: usize, n: usize, arr: &[T]) -> (r: Result<Matrix<T>, Error>) where T: Copy
        ensures
            arr@.len() == m * n ==> (r matches Ok(a) && a@ == Grid::from_flat(
                m as nat,
                n as nat,
                arr@,
            ) && a@.wf() && a@.has_shape(m as nat, n as nat)),
            arr@.len() != m * n ==> (r matches Err(e) && e == Error::ShapeMismatch),
    {
        let given = arr.len();
        match m.checked_mul(n) {
            Some(len) => {
                if given == len {
                    let a = Matrix { m, n, arr: vstd::slice::slice_to_vec(arr) };
                    proof {
                        a.lemma_shape();
                    }
                    Ok(a)
                } else {
                    Err(Error::ShapeMismatch)
                }
            },
            None => Err(Error::ShapeMismatch),
        }
    }

    /// Row `i` as a matrix of one row; `IndexOutOfBounds` where there is no
    /// such row.
    pub fn get_row(&self, i: usize) -> (r: Result<Matrix<T>, Error>) where T: Copy
        ensures
            i < self@.height() ==> (r matches Ok(a) && a@ == self@.row_at(i as int)),
            i >= self@.height() ==> (r matches Err(e) && e == Error::IndexOutOfBounds),
    {
        proof {
            use_type_invariant(self);
            self.lemma_shape();
        }
        if i >= self.m {
            return Err(Error::IndexOutOfBounds);
        }
        let pick = |k: usize, j: usize| -> (x: T)
            requires
                self@.has(i as int, j as int),
            ensures
                x == self@.at(i as int, j as int),
        {
            self.entry(i, j)
        };
        let a = Matrix::from_fn(1, self.n, pick);
        proof {
            a@.lemma_equal(self@.row_at(i as int));
        }
        Ok(a)
    }

    /// Columns `range.start..range.end` of every row. An empty or reversed
    /// range gives a matrix without columns; `IndexOutOfBounds` where a
    /// non-empty range reaches past the last column.
    pub fn slice_x(&self, range: Range<usize>) -> (r: Result<Matrix<T>, Error>) where T: Copy
        ensures
            range.start >= range.end ==> (r matches Ok(a) && a@ == self@.columns_between(0, 0)),
            range.start < range.end <= self@.width ==> (r matches Ok(a) && a@
                == self@.columns_between(range.start as int, range.end as int)),
            range.start < range.end && range.end > self@.width ==> (r matches Err(e) && e
                == Error::IndexOutOfBounds),
    {
        proof {
            use_type_invariant(self);
            self.lemma_shape();
        }
        if range.start >= range.end {
            proof {
                assert(self.m * 0 == 0) by (nonlinear_arith);
            }
            let a = Matrix { m: self.m, n: 0, arr: Vec::new() };
            proof {
                a.lemma_shape();
                a@.lemma_equal(self@.columns_between(0, 0));
            }
            return Ok(a);
        }
        if range.end > self.n {
            return Err(Error::IndexOutOfBounds);
        }
        let start = range.start;
        let width = range.end - range.start;
        let pick = |i: usize, j: usize| -> (x: T)
            requires
                i < self.m,
                j < width,
            ensures
                x == self@.at(i as int, start + j),
        {
            self.entry(i, start + j)
        };
        proof {
            assert(self.m * width <= self.m * self.n) by (nonlinear_arith)
                requires
                    width <= self.n,
            ;
        }
        let a = Matrix::from_fn(self.m, width, pick);
        proof {
            a@.lemma_equal(self@.columns_between(range.start as int, range.end as int));
        }
        Ok(a)
    }

    /// Rows `range.start..range.end`. An empty or reversed range gives a
    /// matrix without rows; `IndexOutOfBounds` where a non-empty range reaches
    /// past the last row.
    pub fn slice_y(&self, range: Range<usize>) -> (r: Result<Matrix<T>, Error>) where T: Copy
        ensures
            range.start >= range.end ==> (r matches Ok(a) && a@ == self@.rows_between(0, 0)),
            range.start < range.end <= self@.height() ==> (r matches Ok(a) && a@
                == self@.rows_between(range.start as int, range.end as int)),
            range.start < range.end && range.end > self@.height() ==> (r matches Err(e) && e
                == Error::IndexOutOfBounds),
    {
        proof {
            use_type_invariant(self);
            self.lemma_shape();
        }
        if range.start >= range.end {
            proof {
                assert(0 * self.n == 0) by (nonlinear_arith);
            }
            let a = Matrix { m: 0, n: self.n, arr: Vec::new() };
            proof {
                a.lemma_shape();
                a@.lemma_equal(self@.rows_between(0, 0));
            }
            return Ok(a);
        }
        if range.end > self.m {
            return Err(Error::IndexOutOfBounds);
        }
        let start = range.start;
        let height = range.end - range.start;
        let pick = |i: usize, j: usize| -> (x: T)
            requires
                i < height,
                j < self.n,
            ensures
                x == self@.at(start + i, j as int),
        {
            self.entry(start + i, j)
        };
        proof {
            assert(height * self.n <= self.m * self.n) by (nonlinear_arith)
                requires
                    height <= self.m,
            ;
        }
        let a = Matrix::from_fn(height, self.n, pick);
        proof {
            a@.lemma_equal(self@.rows_between(range.start as int, range.end as int));
        }
        Ok(a)
    }

    /// Sets every entry to zero, in place.
    pub fn clear(&mut self) where T: Copy + Default
        ensures
            final(self)@.wf(),
            final(self)@.same_shape(old(self)@),
            final(self)@.all_zero(),
    {
        proof {
            use_type_invariant(&*self);
            self.lemma_shape();
        }
        let zero = T::default();
        let len = self.arr.len();
        let mut k: usize = 0;
        while k < len
            invariant
                k <= len,
                len == self.arr@.len(),
                self.m == old(self).m,
                self.n == old(self).n,
                self.arr@.len() == self.m * self.n,
                is_zero(zero),
                forall|q: int| 0 <= q < k ==> self.arr@[q] == zero,
            decreases len - k,
        {
            self.arr[k] = zero;
            k += 1;
        }
        proof {
            self.lemma_shape();
            old(self).lemma_shape();
            assert forall|i: int, j: int| self@.has(i, j) implies is_zero(
                #[trigger] self@.at(i, j),
            ) by {
                self.lemma_cell(i, j);
            }
        }
    }

    /// Applies `f` to every entry, row by row.
    pub fn map<F: Fn(T) -> T>(&self, f: F) -> (r: Matrix<T>) where T: Copy
        requires
            self@.accepted_by(f),
        ensures
            r@.is_image_of(self@, f),
    {
        self.map_with(&f)
    }

    /// Applies a borrowed `f` to every entry, row by row.
    pub fn map_with<F: Fn(T) -> T>(&self, f: &F) -> (r: Matrix<T>) where T: Copy
        requires
            self@.accepted_by(*f),
        ensures
            r@.is_image_of(self@, *f),
    {
        proof {
            use_type_invariant(self);
            self.lemma_shape();
        }
        let apply = |i: usize, j: usize| -> (x: T)
            requires
                self@.has(i as int, j as int),
            ensures
                call_ensures(*f, (self@.at(i as int, j as int),), x),
        {
            f(self.entry(i, j))
        };
        Matrix::from_fn(self.m, self.n, apply)
    }

    /// The entrywise sum; `ShapeMismatch` unless the shapes agree.
    pub fn add(&self, other: &Matrix<T>) -> (r: Result<Matrix<T>, Error>) where
        T: Copy + Add<Output = T>,

        requires
            self@.same_shape(other@) ==> self@.can_add(other@),
        ensures
            self@.same_shape(other@) ==> (r matches Ok(a) && a@.is_sum_of(self@, other@)),
            !self@.same_shape(other@) ==> (r matches Err(e) && e == Error::ShapeMismatch),
    {
        proof {
            use_type_invariant(self);
            use_type_invariant(other);
            self.lemma_shape();
            other.lemma_shape();
        }
        if self.m != other.m || self.n != other.n {
            return Err(Error::ShapeMismatch);
        }
        let combine = |i: usize, j: usize| -> (x: T)
            requires
                self@.has(i as int, j as int),
            ensures
                sum_of(self@.at(i as int, j as int), other@.at(i as int, j as int), x),
        {
            self.entry(i, j) + other.entry(i, j)
        };
        Ok(Matrix::from_fn(self.m, self.n, combine))
    }

    /// The entrywise difference; `ShapeMismatch` unless the shapes agree.
    pub fn sub(&self, other: &Matrix<T>) -> (r: Result<Matrix<T>, Error>) where
        T: Copy + Sub<Output = T>,

        requires
            self@.same_shape(other@) ==> self@.can_sub(other@),
        ensures
            self@.same_shape(other@) ==> (r matches Ok(a) && a@.is_difference_of(self@, other@)),
            !self@.same_shape(other@) ==> (r matches Err(e) && e == Error::ShapeMismatch),
    {
        proof {
            use_type_invariant(self);
            use_type_invariant(other);
            self.lemma_shape();
            other.lemma_shape();
        }
        if self.m != other.m || self.n != other.n {
            return Err(Error::ShapeMismatch);
        }
        let combine = |i: usize, j: usize| -> (x: T)
            requires
                self@.has(i as int, j as int),
            ensures
                difference_of(self@.at(i as int, j as int), other@.at(i as int, j as int), x),
        {
            self.entry(i, j) - other.entry(i, j)
        };
        Ok(Matrix::from_fn(self.m, self.n, combine))
    }

    /// Every entry multiplied by `scalar`.
    pub fn scale(&self, scalar: T) -> (r: Matrix<T>) where T: Copy + Mul<Output = T>
        requires
            self@.can_scale(scalar),
        ensures
            r@.is_scaled(self@, scalar),
    {
        proof {
            use_type_invariant(self);
            self.lemma_shape();
        }
        let combine = |i: usize, j: usize| -> (x: T)
            requires
                self@.has(i as int, j as int),
            ensures
                product_of(self@.at(i as int, j as int), scalar, x),
        {
            self.entry(i, j) * scalar
        };
        Matrix::from_fn(self.m, self.n, combine)
    }

    /// The entrywise product; `ShapeMismatch` unless the shapes agree.
    pub fn hadamard(&self, other: &Matrix<T>) -> (r: Result<Matrix<T>, Error>) where
        T: Copy + Mul<Output = T>,

        requires
            self@.same_shape(other@) ==> self@.can_mul(other@),
        ensures
            self@.same_shape(other@) ==> (r matches Ok(a) && a@.is_hadamard_of(self@, other@)),
            !self@.same_shape(other@) ==> (r matches Err(e) && e == Error::ShapeMismatch),
    {
        proof {
            use_type_invariant(self);
            use_type_invariant(other);
            self.lemma_shape();
            other.lemma_shape();
        }
        if self.m != other.m || self.n != other.n {
            return Err(Error::ShapeMismatch);
        }
        let combine = |i: usize, j: usize| -> (x: T)
            requires
                self@.has(i as int, j as int),
            ensures
                product_of(self@.at(i as int, j as int), other@.at(i as int, j as int), x),
        {
            self.entry(i, j) * other.entry(i, j)
        };
        Ok(Matrix::from_fn(self.m, self.n, combine))
    }

    /// The inner product of row `i` with column `j` of `other`: the products
    /// are added one after another, from the left, to a sum that starts at
    /// zero.
    fn inner(&self, other: &Matrix<T>, i: usize, j: usize) -> (sum: T) where
        T: Copy + Default + Add<Output = T> + Mul<Output = T>,

        requires
            self@.width == other@.height(),
            i < self@.height(),
            j < other@.width,
            dot_defined(self@.rows[i as int], other@.column(j as int), self@.width),
        ensures
            dot_prefix(self@.rows[i as int], other@.column(j as int), self@.width, sum),
    {
        proof {
            use_type_invariant(self);
            use_type_invariant(other);
            self.lemma_shape();
            other.lemma_shape();
        }
        let ghost xs = self@.rows[i as int];
        let ghost ys = other@.column(j as int);
        let mut sum = T::default();
        let ghost mut prods: Seq<T> = Seq::empty();
        let ghost mut sums: Seq<T> = seq![sum];
        let mut k: usize = 0;
        while k < self.n
            invariant
                k <= self.n,
                self@.wf(),
                other@.wf(),
                self@.has_shape(self.m as nat, self.n as nat),
                other@.has_shape(other.m as nat, other.n as nat),
                self.n == other.m,
                i < self.m,
                j < other.n,
                xs == self@.rows[i as int],
                ys == other@.column(j as int),
                dot_defined(xs, ys, self.n as nat),
                dot_trace(xs, ys, k as nat, prods, sums),
                sums[k as int] == sum,
            decreases self.n - k,
        {
            let x = self.entry(i, k);
            let y = other.entry(k, j);
            let p = x * y;
            assert(product_of(xs[k as int], ys[k as int], p));
            let next = sum + p;
            proof {
                prods = prods.push(p);
                sums = sums.push(next);
            }
            sum = next;
            k += 1;
        }
        sum
    }

    /// The matrix product; `ShapeMismatch` unless `self` has as many columns
    /// as `other` has rows.
    pub fn dot(&self, other: &Matrix<T>) -> (r: Result<Matrix<T>, Error>) where
        T: Copy + Default + Add<Output = T> + Mul<Output = T>,

        requires
            self@.width == other@.height() ==> self@.height() * other@.width <= usize::MAX
                && self@.can_dot(other@),
        ensures
            self@.width == other@.height() ==> (r matches Ok(a) && a@.is_product_of(
                self@,
                other@,
            )),
            self@.width != other@.height() ==> (r matches Err(e) && e == Error::ShapeMismatch),
    {
        proof {
            use_type_invariant(self);
            use_type_invariant(other);
            self.lemma_shape();
            other.lemma_shape();
        }
        if other.m != self.n {
            return Err(Error::ShapeMismatch);
        }
        let cell = |i: usize, j: usize| -> (x: T)
            requires
                i < self.m,
                j < other.n,
            ensures
                dot_prefix(self@.rows[i as int], other@.column(j as int), self@.width, x),
        {
            self.inner(other, i, j)
        };
        Ok(Matrix::from_fn(self.m, other.n, cell))
    }

    /// The least and the greatest entry of column `j`, found by one scan from
    /// the top, with the record of each scan.
    fn extremes(&self, j: usize) -> (r: (T, T, Ghost<Seq<T>>, Ghost<Seq<T>>)) where
        T: Copy + PartialOrd,

        requires
            self@.height() > 0,
            j < self@.width,
        ensures
            min_scan(self@.column(j as int), r.2@),
            max_scan(self@.column(j as int), r.3@),
            r.0 == r.2@.last(),
            r.1 == r.3@.last(),
    {
        proof {
            use_type_invariant(self);
            self.lemma_shape();
        }
        let ghost col = self@.column(j as int);
        let first = self.entry(0, j);
        let mut min = first;
        let mut max = first;
        let ghost mut lows: Seq<T> = seq![first];
        let ghost mut highs: Seq<T> = seq![first];
        let mut i: usize = 1;
        while i < self.m
            invariant
                1 <= i <= self.m,
                j < self.n,
                self@.wf(),
                self@.has_shape(self.m as nat, self.n as nat),
                col == self@.column(j as int),
                lows.len() == i,
                highs.len() == i,
                min_scan(col.take(i as int), lows),
                max_scan(col.take(i as int), highs),
                min == lows.last(),
                max == highs.last(),
            decreases self.m - i,
        {
            let x = self.entry(i, j);
            if x < min {
                min = x;
            }
            if x > max {
                max = x;
            }
            proof {
                lows = lows.push(min);
                highs = highs.push(max);
            }
            i += 1;
        }
        (min, max, Ghost(lows), Ghost(highs))
    }

    /// Min-max normalization of every column: each entry becomes
    /// `(entry - min) / (max - min)`, with the least and greatest entry of its
    /// column. A matrix without rows is returned as it is.
    pub fn normalize(&self) -> (r: Matrix<T>) where
        T: Copy + PartialOrd + Sub<Output = T> + Div<Output = T>,

        requires
            self@.can_normalize(),
        ensures
            r@.is_normalized_of(self@),
    {
        proof {
            use_type_invariant(self);
            self.lemma_shape();
        }
        if self.m == 0 {
            proof {
                assert(0 * self.n == 0) by (nonlinear_arith);
            }
            let r = Matrix { m: 0, n: self.n, arr: Vec::new() };
            proof {
                r.lemma_shape();
            }
            return r;
        }
        let mut mins: Vec<T> = Vec::new();
        let mut ranges: Vec<T> = Vec::new();
        let ghost mut lows: Seq<Seq<T>> = Seq::empty();
        let ghost mut highs: Seq<Seq<T>> = Seq::empty();
        let mut j: usize = 0;
        while j < self.n
            invariant
                j <= self.n,
                self.m > 0,
                self@.wf(),
                self@.has_shape(self.m as nat, self.n as nat),
                self@.can_normalize(),
                mins@.len() == j,
                ranges@.len() == j,
                lows.len() == j,
                highs.len() == j,
                forall|c: int|
                    0 <= c < j ==> min_scan(self@.column(c), #[trigger] lows[c]) && max_scan(
                        self@.column(c),
                        highs[c],
                    ) && mins@[c] == lows[c].last() && difference_of(
                        highs[c].last(),
                        lows[c].last(),
                        ranges@[c],
                    ),
            decreases self.n - j,
        {
            let found = self.extremes(j);
            let min = found.0;
            let max = found.1;
            let range = max - min;
            mins.push(min);
            ranges.push(range);
            proof {
                lows = lows.push(found.2@);
                highs = highs.push(found.3@);
            }
            j += 1;
        }
        let cell = |i: usize, j: usize| -> (x: T)
            requires
                self@.has(i as int, j as int),
                crate::scalar::can_sub(self@.at(i as int, j as int), mins@[j as int]),
                forall|d: T| #[trigger]
                    difference_of(self@.at(i as int, j as int), mins@[j as int], d)
                        ==> crate::scalar::can_div(d, ranges@[j as int]),
            ensures
                rescales_to(self@.at(i as int, j as int), mins@[j as int], ranges@[j as int], x),
        {
            let d = self.entry(i, j) - mins[j];
            assert(difference_of(self@.at(i as int, j as int), mins@[j as int], d));
            d / ranges[j]
        };
        proof {
            assert forall|i: usize, j: usize| i < self.m && j < self.n implies call_requires(
                cell,
                (i, j),
            ) by {
                let col = self@.column(j as int);
                assert(min_scan(col, lows[j as int]));
                assert(crate::scalar::can_sub(col[i as int], lows[j as int].last()));
            }
        }
        let r = Matrix::from_fn(self.m, self.n, cell);
        proof {
            assert forall|c: int| 0 <= c < r@.width implies column_normalized(
                self@.column(c),
                #[trigger] r@.column(c),
            ) by {
                let col = self@.column(c);
                let out = r@.column(c);
                assert(min_scan(col, lows[c]));
                assert forall|i: int| 0 <= i < col.len() implies #[trigger] rescales_to(
                    col[i],
                    lows[c].last(),
                    ranges@[c],
                    out[i],
                ) by {
                    assert(out[i] == r@.at(i, c));
                }
                assert(rescaled(col, lows[c], highs[c], ranges@[c], out));
            }
        }
        r
    }

    /// Whether the two matrices have one shape and no cell in which `!=`
    /// holds. The cells are compared row by row until one differs.
    pub fn equals(&self, other: &Matrix<T>) -> (r: bool) where T: Copy + PartialEq
        ensures
            r ==> self@.agrees_with(other@),
            !r ==> self@.disagrees_with(other@),
    {
        proof {
            use_type_invariant(self);
            use_type_invariant(other);
            self.lemma_shape();
            other.lemma_shape();
        }
        if self.m != other.m || self.n != other.n {
            return false;
        }
        let mut i: usize = 0;
        while i < self.m
            invariant
                i <= self.m,
                self@.wf(),
                other@.wf(),
                self@.has_shape(self.m as nat, self.n as nat),
                other@.same_shape(self@),
                forall|p: int, q: int|
                    0 <= p < i && 0 <= q < self.n ==> differs(
                        #[trigger] self@.at(p, q),
                        other@.at(p, q),
                        false,
                    ),
            decreases self.m - i,
        {
            let mut j: usize = 0;
            while j < self.n
                invariant
                    i < self.m,
                    j <= self.n,
                    self@.wf(),
                    other@.wf(),
                    self@.has_shape(self.m as nat, self.n as nat),
                    other@.same_shape(self@),
                    forall|p: int, q: int|
                        0 <= p < i && 0 <= q < self.n ==> differs(
                            #[trigger] self@.at(p, q),
                            other@.at(p, q),
                            false,
                        ),
                    forall|q: int|
                        0 <= q < j ==> differs(
                            #[trigger] self@.at(i as int, q),
                            other@.at(i as int, q),
                            false,
                        ),
                decreases self.n - j,
            {
                let x = self.entry(i, j);
                let y = other.entry(i, j);
                if x != y {
                    proof {
                        assert(self@.has(i as int, j as int) && differs(
                            self@.at(i as int, j as int),
                            other@.at(i as int, j as int),
                            true,
                        ));
                    }
                    return false;
                }
                j += 1;
            }
            i += 1;
        }
        true
    }

    /// An `m` by `n` matrix whose entries are drawn from `source` one after
    /// another, row by row.
    pub(crate) fn sample(m: usize, n: usize, source: &mut Option<StdRng>) -> (r: Matrix<T>) where
        Standard: Distribution<T>,

        requires
            m * n <= usize::MAX,
        ensures
            r@.wf(),
            r@.has_shape(m as nat, n as nat),
    {
        let len = m * n;
        let mut arr: Vec<T> = Vec::new();
        let mut k: usize = 0;
        while k < len
            invariant
                k <= len,
                arr@.len() == k,
            decreases len - k,
        {
            arr.push(next(source));
            k += 1;
        }
        let r = Matrix { m, n, arr };
        proof {
            r.lemma_shape();
        }
        r
    }

    /// A matrix of the same shape whose entries are drawn afresh from the
    /// generator of the current thread. Nothing is promised of the entries.
    pub fn randomize(&self) -> (r: Matrix<T>) where Standard: Distribution<T>
        ensures
            r@.wf(),
            r@.same_shape(self@),
    {
        proof {
            use_type_invariant(self);
            self.lemma_shape();
        }
        let mut source: Option<StdRng> = None;
        Matrix::sample(self.m, self.n, &mut source)
    }

    /// A matrix of the same shape whose entries are drawn afresh from a
    /// generator started with `seed`. Nothing is promised of the entries.
    pub fn randomize_seeded(&self, seed: u64) -> (r: Matrix<T>) where Standard: Distribution<T>
        ensures
            r@.wf(),
            r@.same_shape(self@),
    {
        proof {
            use_type_invariant(self);
            self.lemma_shape();
        }
        let mut source: Option<StdRng> = Some(seeded(seed));
        Matrix::sample(self.m, self.n, &mut source)
    }
}

} // verus!
