//! The mathematical model of a matrix: rows of entries, all of one width.
use vstd::prelude::*;
use core::ops::{Add, Div, Mul, Sub};
use vstd::std_specs::ops::AddSpec;
use crate::scalar::{
    above, add_commutes, below, can_add, can_div, can_mul, can_sub, difference_of, differs,
    is_zero, product_of, quotient_of, sub_undoes_add, sum_of,
};

verus! {

/// A rectangular arrangement of entries. `rows[i][j]` is the entry in row `i`
/// and column `j`. The width is kept beside the rows so that a grid without
/// rows still has a shape.
pub struct Grid<T> {
    pub rows: Seq<Seq<T>>,
    pub width: nat,
}

/// `prods` and `sums` record one way of adding up the first `k` products of
/// `xs` and `ys` from the left: `prods[i]` is a value of `xs[i] * ys[i]`, the
/// sum starts at a zero, and `sums[i + 1]` is a value of `sums[i] + prods[i]`.
pub open spec fn dot_trace<T: Default + Add<Output = T> + Mul<Output = T>>(
    xs: Seq<T>,
    ys: Seq<T>,
    k: nat,
    prods: Seq<T>,
    sums: Seq<T>,
) -> bool {
    &&& prods.len() == k
    &&& sums.len() == k + 1
    &&& is_zero(sums[0])
    &&& forall|i: int| 0 <= i < k ==> product_of(xs[i], ys[i], #[trigger] prods[i])
    &&& forall|i: int| 0 <= i < k ==> sum_of(sums[i], #[trigger] prods[i], sums[i + 1])
}

/// `acc` is a value that adding up the first `k` products `xs[0] * ys[0]`,
/// `xs[1] * ys[1]`, ... may give, when the sum starts from zero and each
/// product is added to the right of the sum so far.
pub open spec fn dot_prefix<T: Default + Add<Output = T> + Mul<Output = T>>(
    xs: Seq<T>,
    ys: Seq<T>,
    k: nat,
    acc: T,
) -> bool {
    exists|prods: Seq<T>, sums: Seq<T>| #[trigger]
        dot_trace(xs, ys, k, prods, sums) && sums[k as int] == acc
}

/// Every multiplication and every addition that the sum of the first `n`
/// products of `xs` and `ys` can come to may be evaluated.
pub open spec fn dot_defined<T: Default + Add<Output = T> + Mul<Output = T>>(
    xs: Seq<T>,
    ys: Seq<T>,
    n: nat,
) -> bool {
    &&& forall|k: int| 0 <= k < n ==> can_mul(#[trigger] xs[k], ys[k])
    &&& forall|k: nat, prods: Seq<T>, sums: Seq<T>, p: T|
        k < n && #[trigger] dot_trace(xs, ys, k, prods, sums) && #[trigger] product_of(
            xs[k as int],
            ys[k as int],
            p,
        ) ==> can_add(sums[k as int], p)
}

/// `next` is the lower of `x` and `lo`, as `x < lo` answered.
pub open spec fn keeps_lower<T: PartialOrd>(x: T, lo: T, next: T) -> bool {
    ||| below(x, lo, true) && next == x
    ||| below(x, lo, false) && next == lo
}

/// `next` is the higher of `x` and `hi`, as `x > hi` answered.
pub open spec fn keeps_higher<T: PartialOrd>(x: T, hi: T, next: T) -> bool {
    ||| above(x, hi, true) && next == x
    ||| above(x, hi, false) && next == hi
}

/// `lows` records a scan of `col` from the top for its least entry: it
/// starts with the first entry, and each further entry replaces the least
/// so far where it compares below it.
pub open spec fn min_scan<T: PartialOrd>(col: Seq<T>, lows: Seq<T>) -> bool {
    &&& lows.len() == col.len()
    &&& col.len() > 0 ==> lows[0] == col[0]
    &&& forall|k: int|
        0 <= k < col.len() - 1 ==> keeps_lower(col[k + 1], #[trigger] lows[k], lows[k + 1])
}

/// `highs` records a scan of `col` from the top for its greatest entry.
pub open spec fn max_scan<T: PartialOrd>(col: Seq<T>, highs: Seq<T>) -> bool {
    &&& highs.len() == col.len()
    &&& col.len() > 0 ==> highs[0] == col[0]
    &&& forall|k: int|
        0 <= k < col.len() - 1 ==> keeps_higher(col[k + 1], #[trigger] highs[k], highs[k + 1])
}

/// `y` is a value of `(x - lo) / range`.
pub open spec fn rescales_to<T: Sub<Output = T> + Div<Output = T>>(
    x: T,
    lo: T,
    range: T,
    y: T,
) -> bool {
    exists|d: T| #[trigger] difference_of(x, lo, d) && quotient_of(d, range, y)
}

/// `out` is `col` rescaled by the least and greatest entries that the scans
/// `lows` and `highs` ended with: `range` is a value of `max - min`, and each
/// `out[i]` is a value of `(col[i] - min) / range`.
pub open spec fn rescaled<T: PartialOrd + Sub<Output = T> + Div<Output = T>>(
    col: Seq<T>,
    lows: Seq<T>,
    highs: Seq<T>,
    range: T,
    out: Seq<T>,
) -> bool {
    &&& min_scan(col, lows)
    &&& max_scan(col, highs)
    &&& difference_of(highs.last(), lows.last(), range)
    &&& forall|i: int|
        0 <= i < col.len() ==> #[trigger] rescales_to(col[i], lows.last(), range, out[i])
}

/// `out` is a min-max normalization of the non-empty column `col`.
pub open spec fn column_normalized<T: PartialOrd + Sub<Output = T> + Div<Output = T>>(
    col: Seq<T>,
    out: Seq<T>,
) -> bool {
    &&& out.len() == col.len()
    &&& exists|lows: Seq<T>, highs: Seq<T>, range: T| #[trigger]
        rescaled(col, lows, highs, range, out)
}

/// Every subtraction and division that normalizing `col` can come to may be
/// evaluated.
pub open spec fn normalize_defined<T: PartialOrd + Sub<Output = T> + Div<Output = T>>(
    col: Seq<T>,
) -> bool {
    forall|lows: Seq<T>, highs: Seq<T>| #[trigger]
        min_scan(col, lows) && #[trigger] max_scan(col, highs) ==> {
            &&& can_sub(highs.last(), lows.last())
            &&& forall|i: int| 0 <= i < col.len() ==> can_sub(#[trigger] col[i], lows.last())
            &&& forall|range: T, i: int, d: T|
                0 <= i < col.len() && #[trigger] difference_of(highs.last(), lows.last(), range)
                    && #[trigger] difference_of(col[i], lows.last(), d) ==> can_div(d, range)
        }
}

impl<T> Grid<T> {
    /// Every row has the grid's width.
    pub open spec fn wf(self) -> bool {
        forall|i: int| 0 <= i < self.rows.len() ==> (#[trigger] self.rows[i]).len() == self.width
    }

    /// The number of rows.
    pub open spec fn height(self) -> nat {
        self.rows.len()
    }

    /// The entry in row `i`, column `j`.
    pub open spec fn at(self, i: int, j: int) -> T {
        self.rows[i][j]
    }

    /// `(i, j)` names a cell of the grid.
    pub open spec fn has(self, i: int, j: int) -> bool {
        0 <= i < self.height() && 0 <= j < self.width
    }

    pub open spec fn has_shape(self, m: nat, n: nat) -> bool {
        self.height() == m && self.width == n
    }

    pub open spec fn same_shape(self, other: Grid<T>) -> bool {
        self.height() == other.height() && self.width == other.width
    }

    /// Column `j`, top to bottom.
    pub open spec fn column(self, j: int) -> Seq<T> {
        Seq::new(self.height(), |i: int| self.rows[i][j])
    }

    /// The grid whose entry `(j, i)` is this grid's entry `(i, j)`.
    pub open spec fn transposed(self) -> Grid<T> {
        Grid { rows: Seq::new(self.width, |j: int| self.column(j)), width: self.height() }
    }

    /// Row `i` as a grid of height one.
    pub open spec fn row_at(self, i: int) -> Grid<T> {
        Grid { rows: seq![self.rows[i]], width: self.width }
    }

    /// Rows `lo..hi`.
    pub open spec fn rows_between(self, lo: int, hi: int) -> Grid<T> {
        Grid { rows: self.rows.subrange(lo, hi), width: self.width }
    }

    /// Columns `lo..hi` of every row.
    pub open spec fn columns_between(self, lo: int, hi: int) -> Grid<T> {
        Grid {
            rows: Seq::new(self.height(), |i: int| self.rows[i].subrange(lo, hi)),
            width: (hi - lo) as nat,
        }
    }

    /// The grid of `m` rows and `n` columns laid out row by row in `cells`.
    pub open spec fn from_flat(m: nat, n: nat, cells: Seq<T>) -> Grid<T> {
        Grid { rows: Seq::new(m, |i: int| cells.subrange(i * n, i * n + n)), width: n }
    }

    /// Every entry is a zero of the entry type.
    pub open spec fn all_zero(self) -> bool where T: Default {
        forall|i: int, j: int| self.has(i, j) ==> is_zero(#[trigger] self.at(i, j))
    }

    /// Every entry is a value that `f` may return for the entry of `a` in the
    /// same cell.
    pub open spec fn is_image_of<F: Fn(T) -> T>(self, a: Grid<T>, f: F) -> bool {
        &&& self.wf()
        &&& self.same_shape(a)
        &&& forall|i: int, j: int|
            self.has(i, j) ==> call_ensures(f, (a.at(i, j),), #[trigger] self.at(i, j))
    }

    /// `f` accepts every entry.
    pub open spec fn accepted_by<F: Fn(T) -> T>(self, f: F) -> bool {
        forall|i: int, j: int| self.has(i, j) ==> call_requires(f, (#[trigger] self.at(i, j),))
    }

    /// Entry by entry, `self + b` may be evaluated.
    pub open spec fn can_add(self, b: Grid<T>) -> bool where T: Add<Output = T> {
        forall|i: int, j: int| self.has(i, j) ==> can_add(#[trigger] self.at(i, j), b.at(i, j))
    }

    /// Entry by entry, `self + b` is within the range of the entry type.
    pub open spec fn sums_in_range(self, b: Grid<T>) -> bool where T: Add<Output = T> {
        forall|i: int, j: int| self.has(i, j) ==> (#[trigger] self.at(i, j)).add_req(b.at(i, j))
    }

    /// `a` and `b` have one shape, and every entry is a value that `+` may
    /// return for the entries of `a` and `b` in the same cell.
    pub open spec fn is_sum_of(self, a: Grid<T>, b: Grid<T>) -> bool where T: Add<Output = T> {
        &&& self.wf()
        &&& a.same_shape(b)
        &&& self.same_shape(a)
        &&& forall|i: int, j: int|
            self.has(i, j) ==> sum_of(a.at(i, j), b.at(i, j), #[trigger] self.at(i, j))
    }

    /// Entry by entry, `self - b` may be evaluated.
    pub open spec fn can_sub(self, b: Grid<T>) -> bool where T: Sub<Output = T> {
        forall|i: int, j: int| self.has(i, j) ==> can_sub(#[trigger] self.at(i, j), b.at(i, j))
    }

    /// `a` and `b` have one shape, and every entry is a value that `-` may
    /// return for the entries of `a` and `b` in the same cell.
    pub open spec fn is_difference_of(self, a: Grid<T>, b: Grid<T>) -> bool where
        T: Sub<Output = T>,
     {
        &&& self.wf()
        &&& a.same_shape(b)
        &&& self.same_shape(a)
        &&& forall|i: int, j: int|
            self.has(i, j) ==> difference_of(a.at(i, j), b.at(i, j), #[trigger] self.at(i, j))
    }

    /// Entry by entry, `self * b` may be evaluated.
    pub open spec fn can_mul(self, b: Grid<T>) -> bool where T: Mul<Output = T> {
        forall|i: int, j: int| self.has(i, j) ==> can_mul(#[trigger] self.at(i, j), b.at(i, j))
    }

    /// `a` and `b` have one shape, and every entry is a value that `*` may
    /// return for the entries of `a` and `b` in the same cell.
    pub open spec fn is_hadamard_of(self, a: Grid<T>, b: Grid<T>) -> bool where
        T: Mul<Output = T>,
     {
        &&& self.wf()
        &&& a.same_shape(b)
        &&& self.same_shape(a)
        &&& forall|i: int, j: int|
            self.has(i, j) ==> product_of(a.at(i, j), b.at(i, j), #[trigger] self.at(i, j))
    }

    /// Every entry may be multiplied by `s`.
    pub open spec fn can_scale(self, s: T) -> bool where T: Mul<Output = T> {
        forall|i: int, j: int| self.has(i, j) ==> can_mul(#[trigger] self.at(i, j), s)
    }

    /// Every entry is a value that `*` may return for the entry of `a` in the
    /// same cell and `s`.
    pub open spec fn is_scaled(self, a: Grid<T>, s: T) -> bool where T: Mul<Output = T> {
        &&& self.wf()
        &&& self.same_shape(a)
        &&& forall|i: int, j: int|
            self.has(i, j) ==> product_of(a.at(i, j), s, #[trigger] self.at(i, j))
    }

    /// Every inner product of a row of `self` with a column of `b` may be
    /// evaluated.
    pub open spec fn can_dot(self, b: Grid<T>) -> bool where
        T: Default + Add<Output = T> + Mul<Output = T>,
     {
        forall|i: int, j: int|
            0 <= i < self.height() && 0 <= j < b.width ==> dot_defined(
                #[trigger] self.rows[i],
                #[trigger] b.column(j),
                self.width,
            )
    }

    /// `a` has as many columns as `b` has rows, and entry `(i, j)` is a value
    /// that the inner product of row `i` of `a` with column `j` of `b` may
    /// give, summed from the left.
    pub open spec fn is_product_of(self, a: Grid<T>, b: Grid<T>) -> bool where
        T: Default + Add<Output = T> + Mul<Output = T>,
     {
        &&& self.wf()
        &&& a.width == b.height()
        &&& self.has_shape(a.height(), b.width)
        &&& forall|i: int, j: int|
            self.has(i, j) ==> dot_prefix(a.rows[i], b.column(j), a.width, #[trigger] self.at(i, j))
    }

    /// Every column may be normalized.
    pub open spec fn can_normalize(self) -> bool where
        T: PartialOrd + Sub<Output = T> + Div<Output = T>,
     {
        self.height() > 0 ==> forall|j: int|
            0 <= j < self.width ==> normalize_defined(#[trigger] self.column(j))
    }

    /// Every column is a min-max normalization of the same column of `a`.
    pub open spec fn is_normalized_of(self, a: Grid<T>) -> bool where
        T: PartialOrd + Sub<Output = T> + Div<Output = T>,
     {
        &&& self.wf()
        &&& self.same_shape(a)
        &&& self.height() > 0 ==> forall|j: int|
            0 <= j < self.width ==> column_normalized(a.column(j), #[trigger] self.column(j))
    }

    /// The shapes agree and `!=` answered false in every cell.
    pub open spec fn agrees_with(self, b: Grid<T>) -> bool where T: PartialEq {
        &&& self.same_shape(b)
        &&& forall|i: int, j: int|
            self.has(i, j) ==> differs(#[trigger] self.at(i, j), b.at(i, j), false)
    }

    /// The shapes disagree, or `!=` answered true in some cell.
    pub open spec fn disagrees_with(self, b: Grid<T>) -> bool where T: PartialEq {
        ||| !self.same_shape(b)
        ||| exists|i: int, j: int|
            self.has(i, j) && differs(#[trigger] self.at(i, j), b.at(i, j), true)
    }

    /// Two well-formed grids of one shape with equal entries are equal.
    pub proof fn lemma_equal(self, other: Grid<T>)
        requires
            self.wf(),
            other.wf(),
            self.same_shape(other),
            forall|i: int, j: int| self.has(i, j) ==> self.at(i, j) == other.at(i, j),
        ensures
            self == other,
    {
        assert forall|i: int| 0 <= i < self.rows.len() implies self.rows[i] =~= other.rows[i] by {
            assert forall|j: int| 0 <= j < self.rows[i].len() implies self.rows[i][j]
                == other.rows[i][j] by {
                assert(self.at(i, j) == other.at(i, j));
            }
        }
        assert(self.rows =~= other.rows);
    }

    /// Transposing twice gives the grid back.
    pub proof fn lemma_transposed_twice(self)
        requires
            self.wf(),
        ensures
            self.transposed().wf(),
            self.transposed().transposed() == self,
    {
        let t = self.transposed();
        let tt = t.transposed();
        tt.lemma_equal(self);
    }

    /// Addition of matrices commutes where addition of entries does: `a + b`
    /// and `b + a` are the same matrix.
    pub proof fn lemma_sum_commutes(self, other: Grid<T>, a: Grid<T>, b: Grid<T>) where
        T: Add<Output = T>,

        requires
            self.is_sum_of(a, b),
            other.is_sum_of(b, a),
            add_commutes::<T>(),
        ensures
            self == other,
    {
        self.lemma_equal(other);
    }

    /// Where subtraction of entries undoes their addition and the sums stay
    /// within the range of the entry type, `(a + b) - b` is `a`.
    pub proof fn lemma_sum_less_summand(self, a: Grid<T>, b: Grid<T>, sum: Grid<T>) where
        T: Add<Output = T> + Sub<Output = T>,

        requires
            a.wf(),
            a.sums_in_range(b),
            sum.is_sum_of(a, b),
            self.is_difference_of(sum, b),
            sub_undoes_add::<T>(),
        ensures
            self == a,
    {
        self.lemma_equal(a);
    }
}

} // verus!
