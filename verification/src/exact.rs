//! What the contracts of the matrix come to for an entry type whose
//! arithmetic is a function of its operands, as it is for the primitive
//! integers: the entries of a product are the sums that the formula gives.
use vstd::prelude::*;
use vstd::std_specs::ops::{AddSpec, MulSpec};
use core::ops::{Add, Mul};
use crate::grid::{dot_defined, dot_prefix, dot_trace, Grid};
use crate::scalar::{can_add, can_mul, is_zero, product_of, sum_of};

verus! {

/// `+` and `*` of `T` return what `add_spec` and `mul_spec` say, and `zero`
/// is the one zero of `T`.
pub open spec fn exact<T: Default + Add<Output = T> + Mul<Output = T>>(zero: T) -> bool {
    &&& T::obeys_add_spec()
    &&& T::obeys_mul_spec()
    &&& forall|z: T| #[trigger] is_zero(z) ==> z == zero
}

/// `zero + xs[0] * ys[0] + ... + xs[k - 1] * ys[k - 1]`, added from the left.
pub open spec fn dot_sum<T: Add<Output = T> + Mul<Output = T>>(
    xs: Seq<T>,
    ys: Seq<T>,
    zero: T,
    k: nat,
) -> T
    decreases k,
{
    if k == 0 {
        zero
    } else {
        dot_sum(xs, ys, zero, (k - 1) as nat).add_spec(xs[k - 1].mul_spec(ys[k - 1]))
    }
}

/// No product and no sum on the way to `dot_sum(xs, ys, zero, n)` leaves
/// the range of `T`.
pub open spec fn dot_in_range<T: Add<Output = T> + Mul<Output = T>>(
    xs: Seq<T>,
    ys: Seq<T>,
    zero: T,
    n: nat,
) -> bool {
    forall|k: nat|
        k < n ==> xs[k as int].mul_req(ys[k as int]) && (#[trigger] dot_sum(xs, ys, zero, k)).add_req(
            xs[k as int].mul_spec(ys[k as int]),
        )
}

/// With exact arithmetic, a record of adding up products holds the sums
/// that the formula gives.
pub proof fn lemma_trace_exact<T: Default + Add<Output = T> + Mul<Output = T>>(
    xs: Seq<T>,
    ys: Seq<T>,
    zero: T,
    k: nat,
    prods: Seq<T>,
    sums: Seq<T>,
    i: nat,
)
    requires
        exact(zero),
        dot_trace(xs, ys, k, prods, sums),
        i <= k,
    ensures
        sums[i as int] == dot_sum(xs, ys, zero, i),
    decreases i,
{
    if i > 0 {
        lemma_trace_exact(xs, ys, zero, k, prods, sums, (i - 1) as nat);
        assert(sum_of(sums[i - 1], prods[i - 1], sums[i - 1 + 1]));
    }
}

/// With exact arithmetic, the inner product is the sum that the formula
/// gives.
pub proof fn lemma_dot_exact<T: Default + Add<Output = T> + Mul<Output = T>>(
    xs: Seq<T>,
    ys: Seq<T>,
    zero: T,
    n: nat,
    acc: T,
)
    requires
        exact(zero),
        dot_prefix(xs, ys, n, acc),
    ensures
        acc == dot_sum(xs, ys, zero, n),
{
    let (prods, sums) = choose|prods: Seq<T>, sums: Seq<T>| #[trigger]
        dot_trace(xs, ys, n, prods, sums) && sums[n as int] == acc;
    lemma_trace_exact(xs, ys, zero, n, prods, sums, n);
}

/// With exact arithmetic, the inner product may be evaluated where the
/// formula stays within the range of `T`.
pub proof fn lemma_dot_defined<T: Default + Add<Output = T> + Mul<Output = T>>(
    xs: Seq<T>,
    ys: Seq<T>,
    zero: T,
    n: nat,
)
    requires
        exact(zero),
        dot_in_range(xs, ys, zero, n),
    ensures
        dot_defined(xs, ys, n),
{
    assert forall|k: int| 0 <= k < n implies can_mul(#[trigger] xs[k], ys[k]) by {
        assert(dot_sum(xs, ys, zero, k as nat).add_req(xs[k].mul_spec(ys[k])));
    }
    assert forall|k: nat, prods: Seq<T>, sums: Seq<T>, p: T|
        k < n && #[trigger] dot_trace(xs, ys, k, prods, sums) && #[trigger] product_of(
            xs[k as int],
            ys[k as int],
            p,
        ) implies can_add(sums[k as int], p) by {
        lemma_trace_exact(xs, ys, zero, k, prods, sums, k);
    }
}

impl<T: Default + Add<Output = T> + Mul<Output = T>> Grid<T> {
    /// No product and no sum on the way to any entry of `self * b` leaves
    /// the range of `T`.
    pub open spec fn product_in_range(self, b: Grid<T>, zero: T) -> bool {
        forall|i: int, j: int|
            0 <= i < self.height() && 0 <= j < b.width ==> dot_in_range(
                #[trigger] self.rows[i],
                #[trigger] b.column(j),
                zero,
                self.width,
            )
    }

    /// With exact arithmetic, `self * b` may be evaluated where the formula
    /// stays within the range of `T`.
    pub proof fn lemma_can_dot(self, b: Grid<T>, zero: T)
        requires
            exact(zero),
            self.product_in_range(b, zero),
        ensures
            self.can_dot(b),
    {
        assert forall|i: int, j: int| 0 <= i < self.height() && 0 <= j < b.width implies dot_defined(
            #[trigger] self.rows[i],
            #[trigger] b.column(j),
            self.width,
        ) by {
            lemma_dot_defined(self.rows[i], b.column(j), zero, self.width);
        }
    }

    /// With exact arithmetic, entry `(i, j)` of a product is the sum over `k`
    /// of the products of the entries `(i, k)` and `(k, j)`, added from the
    /// left.
    pub proof fn lemma_product_exact(self, a: Grid<T>, b: Grid<T>, zero: T)
        requires
            exact(zero),
            self.is_product_of(a, b),
        ensures
            forall|i: int, j: int|
                self.has(i, j) ==> #[trigger] self.at(i, j) == dot_sum(
                    a.rows[i],
                    b.column(j),
                    zero,
                    a.width,
                ),
    {
        assert forall|i: int, j: int| self.has(i, j) implies #[trigger] self.at(i, j) == dot_sum(
            a.rows[i],
            b.column(j),
            zero,
            a.width,
        ) by {
            lemma_dot_exact(a.rows[i], b.column(j), zero, a.width, self.at(i, j));
        }
    }
}

} // verus!
