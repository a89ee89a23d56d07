//! The contracts of the matrix and of the network leave one result only.
//!
//! A contract here says of a result that each entry is a value that the
//! entry type's arithmetic may return. Where that arithmetic is a function
//! of its operands, two matrices that meet one contract are the same matrix,
//! and two networks that meet one contract are the same network.
use vstd::prelude::*;
use core::ops::{Add, Div, Mul, Sub};
use crate::grid::{
    column_normalized, dot_prefix, dot_trace, max_scan, min_scan, rescaled, rescales_to, Grid,
};
use crate::net::{epoch_trace, sample, Net};
use crate::scalar::{
    add_is_function, difference_of, div_is_function, is_function, mul_is_function,
    order_is_function, quotient_of, sub_is_function, sum_of, zero_is_unique,
};

verus! {

/// Two records of adding up the same products hold the same sums.
pub proof fn lemma_traces_agree<T: Default + Add<Output = T> + Mul<Output = T>>(
    xs: Seq<T>,
    ys: Seq<T>,
    k: nat,
    prods: Seq<T>,
    sums: Seq<T>,
    prods2: Seq<T>,
    sums2: Seq<T>,
    i: nat,
)
    requires
        zero_is_unique::<T>(),
        add_is_function::<T>(),
        mul_is_function::<T>(),
        dot_trace(xs, ys, k, prods, sums),
        dot_trace(xs, ys, k, prods2, sums2),
        i <= k,
    ensures
        sums[i as int] == sums2[i as int],
    decreases i,
{
    if i > 0 {
        lemma_traces_agree(xs, ys, k, prods, sums, prods2, sums2, (i - 1) as nat);
        assert(sum_of(sums[i - 1], prods[i - 1], sums[i - 1 + 1]));
        assert(sum_of(sums2[i - 1], prods2[i - 1], sums2[i - 1 + 1]));
    }
}

/// An inner product has one value only.
pub proof fn lemma_dot_unique<T: Default + Add<Output = T> + Mul<Output = T>>(
    xs: Seq<T>,
    ys: Seq<T>,
    n: nat,
    acc: T,
    acc2: T,
)
    requires
        zero_is_unique::<T>(),
        add_is_function::<T>(),
        mul_is_function::<T>(),
        dot_prefix(xs, ys, n, acc),
        dot_prefix(xs, ys, n, acc2),
    ensures
        acc == acc2,
{
    let (prods, sums) = choose|prods: Seq<T>, sums: Seq<T>| #[trigger]
        dot_trace(xs, ys, n, prods, sums) && sums[n as int] == acc;
    let (prods2, sums2) = choose|prods: Seq<T>, sums: Seq<T>| #[trigger]
        dot_trace(xs, ys, n, prods, sums) && sums[n as int] == acc2;
    lemma_traces_agree(xs, ys, n, prods, sums, prods2, sums2, n);
}

/// Two scans of one column for its least entry agree at every step.
pub proof fn lemma_min_scans_agree<T: PartialOrd>(col: Seq<T>, lows: Seq<T>, lows2: Seq<T>, i: int)
    requires
        order_is_function::<T>(),
        min_scan(col, lows),
        min_scan(col, lows2),
        0 <= i < col.len(),
    ensures
        lows[i] == lows2[i],
    decreases i,
{
    if i > 0 {
        lemma_min_scans_agree(col, lows, lows2, i - 1);
    }
}

/// Two scans of one column for its greatest entry agree at every step.
pub proof fn lemma_max_scans_agree<T: PartialOrd>(
    col: Seq<T>,
    highs: Seq<T>,
    highs2: Seq<T>,
    i: int,
)
    requires
        order_is_function::<T>(),
        max_scan(col, highs),
        max_scan(col, highs2),
        0 <= i < col.len(),
    ensures
        highs[i] == highs2[i],
    decreases i,
{
    if i > 0 {
        lemma_max_scans_agree(col, highs, highs2, i - 1);
    }
}

/// A non-empty column has one normalization only.
pub proof fn lemma_column_normalized_unique<T: PartialOrd + Sub<Output = T> + Div<Output = T>>(
    col: Seq<T>,
    out: Seq<T>,
    out2: Seq<T>,
)
    requires
        order_is_function::<T>(),
        sub_is_function::<T>(),
        div_is_function::<T>(),
        col.len() > 0,
        column_normalized(col, out),
        column_normalized(col, out2),
    ensures
        out == out2,
{
    let (lows, highs, range) = choose|lows: Seq<T>, highs: Seq<T>, range: T| #[trigger]
        rescaled(col, lows, highs, range, out);
    let (lows2, highs2, range2) = choose|lows: Seq<T>, highs: Seq<T>, range: T| #[trigger]
        rescaled(col, lows, highs, range, out2);
    lemma_min_scans_agree(col, lows, lows2, col.len() - 1);
    lemma_max_scans_agree(col, highs, highs2, col.len() - 1);
    assert forall|i: int| 0 <= i < out.len() implies out[i] == out2[i] by {
        assert(rescales_to(col[i], lows.last(), range, out[i]));
        assert(rescales_to(col[i], lows2.last(), range2, out2[i]));
        let d = choose|d: T| #[trigger]
            difference_of(col[i], lows.last(), d) && quotient_of(d, range, out[i]);
        let d2 = choose|d: T| #[trigger]
            difference_of(col[i], lows.last(), d) && quotient_of(d, range, out2[i]);
        assert(d == d2);
    }
}

impl<T> Grid<T> {
    /// A sum has one value only.
    pub proof fn lemma_sum_unique(self, other: Grid<T>, a: Grid<T>, b: Grid<T>) where
        T: Add<Output = T>,

        requires
            add_is_function::<T>(),
            self.is_sum_of(a, b),
            other.is_sum_of(a, b),
        ensures
            self == other,
    {
        self.lemma_equal(other);
    }

    /// A difference has one value only.
    pub proof fn lemma_difference_unique(self, other: Grid<T>, a: Grid<T>, b: Grid<T>) where
        T: Sub<Output = T>,

        requires
            sub_is_function::<T>(),
            self.is_difference_of(a, b),
            other.is_difference_of(a, b),
        ensures
            self == other,
    {
        self.lemma_equal(other);
    }

    /// An entrywise product has one value only.
    pub proof fn lemma_hadamard_unique(self, other: Grid<T>, a: Grid<T>, b: Grid<T>) where
        T: Mul<Output = T>,

        requires
            mul_is_function::<T>(),
            self.is_hadamard_of(a, b),
            other.is_hadamard_of(a, b),
        ensures
            self == other,
    {
        self.lemma_equal(other);
    }

    /// A scaled matrix has one value only.
    pub proof fn lemma_scaled_unique(self, other: Grid<T>, a: Grid<T>, s: T) where
        T: Mul<Output = T>,

        requires
            mul_is_function::<T>(),
            self.is_scaled(a, s),
            other.is_scaled(a, s),
        ensures
            self == other,
    {
        self.lemma_equal(other);
    }

    /// The image of a matrix under a function has one value only.
    pub proof fn lemma_image_unique<F: Fn(T) -> T>(self, other: Grid<T>, a: Grid<T>, f: F)
        requires
            is_function(f),
            self.is_image_of(a, f),
            other.is_image_of(a, f),
        ensures
            self == other,
    {
        self.lemma_equal(other);
    }

    /// A matrix product has one value only.
    pub proof fn lemma_product_unique(self, other: Grid<T>, a: Grid<T>, b: Grid<T>) where
        T: Default + Add<Output = T> + Mul<Output = T>,

        requires
            zero_is_unique::<T>(),
            add_is_function::<T>(),
            mul_is_function::<T>(),
            self.is_product_of(a, b),
            other.is_product_of(a, b),
        ensures
            self == other,
    {
        assert forall|i: int, j: int| self.has(i, j) implies self.at(i, j) == other.at(i, j) by {
            lemma_dot_unique(a.rows[i], b.column(j), a.width, self.at(i, j), other.at(i, j));
        }
        self.lemma_equal(other);
    }

    /// A matrix has one normalization only.
    pub proof fn lemma_normalized_unique(self, other: Grid<T>, a: Grid<T>) where
        T: PartialOrd + Sub<Output = T> + Div<Output = T>,

        requires
            order_is_function::<T>(),
            sub_is_function::<T>(),
            div_is_function::<T>(),
            self.is_normalized_of(a),
            other.is_normalized_of(a),
        ensures
            self == other,
    {
        assert forall|i: int, j: int| self.has(i, j) implies self.at(i, j) == other.at(i, j) by {
            lemma_column_normalized_unique(a.column(j), self.column(j), other.column(j));
            assert(other.column(j)[i] == other.at(i, j));
        }
        self.lemma_equal(other);
    }
}

/// What the laws about networks ask of the entry type: one zero, and one
/// value for each sum, difference and product.
pub open spec fn arithmetic_is_function<T>() -> bool where
    T: Default + Add<Output = T> + Sub<Output = T> + Mul<Output = T>,
 {
    &&& zero_is_unique::<T>()
    &&& add_is_function::<T>()
    &&& sub_is_function::<T>()
    &&& mul_is_function::<T>()
}

impl<T: Default + Add<Output = T> + Sub<Output = T> + Mul<Output = T>> Net<T> {
    /// A forward pass on a column of the input width leaves the network
    /// well formed.
    pub proof fn lemma_fed_wf<S: Fn(T) -> T>(self, old: Net<T>, input: Grid<T>, sigma: S)
        requires
            old.wf(),
            old.takes(input),
            self.fed(old, input, sigma),
        ensures
            self.wf(),
    {
        assert forall|l: int| 0 <= l < self.depth() implies #[trigger] self.layer_wf(l) by {
            assert(old.layer_wf(l));
            assert(self.layer_is_fed(sigma, l));
        }
    }

    /// After a forward pass the buffers of every layer are determined.
    pub proof fn lemma_fed_layers_agree<S: Fn(T) -> T>(
        self,
        other: Net<T>,
        old: Net<T>,
        input: Grid<T>,
        sigma: S,
        l: int,
    )
        requires
            arithmetic_is_function::<T>(),
            is_function(sigma),
            self.fed(old, input, sigma),
            other.fed(old, input, sigma),
            0 <= l < self.depth(),
        ensures
            self.sums[l] == other.sums[l],
            self.outputs[l] == other.outputs[l],
        decreases l,
    {
        if l > 0 {
            self.lemma_fed_layers_agree(other, old, input, sigma, l - 1);
        }
        assert(self.layer_is_fed(sigma, l));
        assert(other.layer_is_fed(sigma, l));
        let p = choose|p: Grid<T>| #[trigger]
            p.is_product_of(self.weights[l], self.feed(l)) && self.sums[l].is_sum_of(
                p,
                self.biases[l],
            );
        let p2 = choose|p: Grid<T>| #[trigger]
            p.is_product_of(other.weights[l], other.feed(l)) && other.sums[l].is_sum_of(
                p,
                other.biases[l],
            );
        p.lemma_product_unique(p2, self.weights[l], self.feed(l));
        self.sums[l].lemma_sum_unique(other.sums[l], p, self.biases[l]);
        self.outputs[l].lemma_image_unique(other.outputs[l], self.sums[l], sigma);
    }

    /// A forward pass has one result only.
    pub proof fn lemma_fed_unique<S: Fn(T) -> T>(
        self,
        other: Net<T>,
        old: Net<T>,
        input: Grid<T>,
        sigma: S,
    )
        requires
            arithmetic_is_function::<T>(),
            is_function(sigma),
            old.wf(),
            self.fed(old, input, sigma),
            other.fed(old, input, sigma),
        ensures
            self == other,
    {
        assert forall|l: int| 0 <= l < self.depth() implies self.sums[l] == other.sums[l]
            && self.outputs[l] == other.outputs[l] by {
            self.lemma_fed_layers_agree(other, old, input, sigma, l);
        }
        assert(self.sums =~= other.sums);
        assert(self.outputs =~= other.outputs);
    }

    /// A backward pass for a column of the output width leaves the network
    /// well formed: every summed gradient keeps the shape of its parameter.
    pub proof fn lemma_back_propagated_wf<D: Fn(T) -> T>(
        self,
        old: Net<T>,
        target: Grid<T>,
        dsigma: D,
    )
        requires
            old.wf(),
            self.back_propagated(old, target, dsigma),
        ensures
            self.wf(),
            self.gradients_shaped(),
    {
        let (errs, deltas) = choose|errs: Seq<Grid<T>>, deltas: Seq<Grid<T>>| #[trigger]
            old.back_trace(target, dsigma, errs, deltas) && self.accumulated(old, deltas);
        assert forall|l: int| 0 <= l < self.depth() implies #[trigger] self.layer_wf(l) by {
            assert(old.layer_wf(l));
            assert(self.layer_accumulated(old, deltas, l));
        }
        self.lemma_gradients_shaped();
    }

    /// The errors of a backward pass are determined, layer by layer from
    /// the last.
    pub proof fn lemma_back_traces_agree<D: Fn(T) -> T>(
        self,
        target: Grid<T>,
        dsigma: D,
        errs: Seq<Grid<T>>,
        deltas: Seq<Grid<T>>,
        errs2: Seq<Grid<T>>,
        deltas2: Seq<Grid<T>>,
        l: int,
    )
        requires
            arithmetic_is_function::<T>(),
            is_function(dsigma),
            self.back_trace(target, dsigma, errs, deltas),
            self.back_trace(target, dsigma, errs2, deltas2),
            0 <= l < self.depth(),
        ensures
            errs[l] == errs2[l],
            deltas[l] == deltas2[l],
        decreases self.depth() - l,
    {
        if l < self.depth() - 1 {
            self.lemma_back_traces_agree(target, dsigma, errs, deltas, errs2, deltas2, l + 1);
            errs[l].lemma_product_unique(
                errs2[l],
                self.weights[l + 1].transposed(),
                deltas[l + 1],
            );
        } else {
            errs[l].lemma_difference_unique(errs2[l], self.outputs[l], target);
        }
        let s = choose|s: Grid<T>| #[trigger]
            s.is_image_of(self.sums[l], dsigma) && deltas[l].is_hadamard_of(errs[l], s);
        let s2 = choose|s: Grid<T>| #[trigger]
            s.is_image_of(self.sums[l], dsigma) && deltas2[l].is_hadamard_of(errs2[l], s);
        s.lemma_image_unique(s2, self.sums[l], dsigma);
        deltas[l].lemma_hadamard_unique(deltas2[l], errs[l], s);
    }

    /// A backward pass has one result only.
    pub proof fn lemma_back_propagated_unique<D: Fn(T) -> T>(
        self,
        other: Net<T>,
        old: Net<T>,
        target: Grid<T>,
        dsigma: D,
    )
        requires
            arithmetic_is_function::<T>(),
            is_function(dsigma),
            old.wf(),
            self.back_propagated(old, target, dsigma),
            other.back_propagated(old, target, dsigma),
        ensures
            self == other,
    {
        let (errs, deltas) = choose|errs: Seq<Grid<T>>, deltas: Seq<Grid<T>>| #[trigger]
            old.back_trace(target, dsigma, errs, deltas) && self.accumulated(old, deltas);
        let (errs2, deltas2) = choose|errs: Seq<Grid<T>>, deltas: Seq<Grid<T>>| #[trigger]
            old.back_trace(target, dsigma, errs, deltas) && other.accumulated(old, deltas);
        assert forall|l: int| 0 <= l < self.depth() implies self.weight_grads[l]
            == other.weight_grads[l] && self.bias_grads[l] == other.bias_grads[l] by {
            old.lemma_back_traces_agree(target, dsigma, errs, deltas, errs2, deltas2, l);
            assert(self.layer_accumulated(old, deltas, l));
            assert(other.layer_accumulated(old, deltas2, l));
            self.bias_grads[l].lemma_sum_unique(other.bias_grads[l], old.bias_grads[l], deltas[l]);
            let g = choose|g: Grid<T>| #[trigger]
                g.is_product_of(deltas[l], old.feed(l).transposed())
                    && self.weight_grads[l].is_sum_of(old.weight_grads[l], g);
            let g2 = choose|g: Grid<T>| #[trigger]
                g.is_product_of(deltas2[l], old.feed(l).transposed())
                    && other.weight_grads[l].is_sum_of(old.weight_grads[l], g);
            g.lemma_product_unique(g2, deltas[l], old.feed(l).transposed());
            self.weight_grads[l].lemma_sum_unique(
                other.weight_grads[l],
                old.weight_grads[l],
                g,
            );
        }
        assert(self.weight_grads =~= other.weight_grads);
        assert(self.bias_grads =~= other.bias_grads);
    }

    /// Clearing the gradients leaves the network well formed.
    pub proof fn lemma_cleared_wf(self, old: Net<T>)
        requires
            old.wf(),
            self.cleared(old),
        ensures
            self.wf(),
    {
        assert forall|l: int| 0 <= l < self.depth() implies #[trigger] self.layer_wf(l) by {
            assert(old.layer_wf(l));
        }
    }

    /// Clearing the gradients has one result only.
    pub proof fn lemma_cleared_unique(self, other: Net<T>, old: Net<T>)
        requires
            zero_is_unique::<T>(),
            old.wf(),
            self.cleared(old),
            other.cleared(old),
        ensures
            self == other,
    {
        assert forall|l: int| 0 <= l < self.depth() implies self.weight_grads[l]
            == other.weight_grads[l] && self.bias_grads[l] == other.bias_grads[l] by {
            let g = self.weight_grads[l];
            let g2 = other.weight_grads[l];
            g.lemma_equal(g2);
            let h = self.bias_grads[l];
            let h2 = other.bias_grads[l];
            h.lemma_equal(h2);
        }
        assert(self.weight_grads =~= other.weight_grads);
        assert(self.bias_grads =~= other.bias_grads);
    }

    /// A step against the gradients leaves the network well formed.
    pub proof fn lemma_updated_wf(self, old: Net<T>, rate: T)
        requires
            old.wf(),
            self.updated(old, rate),
        ensures
            self.wf(),
    {
        assert forall|l: int| 0 <= l < self.depth() implies #[trigger] self.layer_wf(l) by {
            assert(old.layer_wf(l));
            assert(self.layer_updated(old, rate, l));
        }
    }

    /// A step against the gradients has one result only.
    pub proof fn lemma_updated_unique(self, other: Net<T>, old: Net<T>, rate: T)
        requires
            arithmetic_is_function::<T>(),
            old.wf(),
            self.updated(old, rate),
            other.updated(old, rate),
        ensures
            self == other,
    {
        assert forall|l: int| 0 <= l < self.depth() implies self.weights[l] == other.weights[l]
            && self.biases[l] == other.biases[l] by {
            assert(self.layer_updated(old, rate, l));
            assert(other.layer_updated(old, rate, l));
            let s = choose|s: Grid<T>| #[trigger]
                s.is_scaled(old.bias_grads[l], rate) && self.biases[l].is_difference_of(
                    old.biases[l],
                    s,
                );
            let s2 = choose|s: Grid<T>| #[trigger]
                s.is_scaled(old.bias_grads[l], rate) && other.biases[l].is_difference_of(
                    old.biases[l],
                    s,
                );
            s.lemma_scaled_unique(s2, old.bias_grads[l], rate);
            self.biases[l].lemma_difference_unique(other.biases[l], old.biases[l], s);
            let t = choose|s: Grid<T>| #[trigger]
                s.is_scaled(old.weight_grads[l], rate) && self.weights[l].is_difference_of(
                    old.weights[l],
                    s,
                );
            let t2 = choose|s: Grid<T>| #[trigger]
                s.is_scaled(old.weight_grads[l], rate) && other.weights[l].is_difference_of(
                    old.weights[l],
                    s,
                );
            t.lemma_scaled_unique(t2, old.weight_grads[l], rate);
            self.weights[l].lemma_difference_unique(other.weights[l], old.weights[l], t);
        }
        assert(self.weights =~= other.weights);
        assert(self.biases =~= other.biases);
    }
}

/// A sample of a batch is a column as high as the batch is wide.
pub proof fn lemma_sample_is_column<T>(batch: Grid<T>, k: int)
    requires
        batch.wf(),
        0 <= k < batch.height(),
    ensures
        sample(batch, k).wf(),
        sample(batch, k).has_shape(batch.width, 1),
{
}

/// Throughout a pass over a batch that fits it, the network stays well
/// formed.
pub proof fn lemma_epoch_wf<T, S, D>(
    inputs: Grid<T>,
    targets: Grid<T>,
    sigma: S,
    dsigma: D,
    starts: Seq<Net<T>>,
    mids: Seq<Net<T>>,
    k: int,
) where
    T: Default + Add<Output = T> + Sub<Output = T> + Mul<Output = T>,
    S: Fn(T) -> T,
    D: Fn(T) -> T,

    requires
        inputs.wf(),
        targets.wf(),
        starts[0].wf(),
        starts[0].batch_fits(inputs, targets),
        epoch_trace(inputs, targets, sigma, dsigma, starts, mids),
        0 <= k <= inputs.height(),
    ensures
        starts[k].wf(),
        starts[k].sizes == starts[0].sizes,
    decreases k,
{
    if k > 0 {
        lemma_epoch_wf(inputs, targets, sigma, dsigma, starts, mids, k - 1);
        lemma_sample_is_column(inputs, k - 1);
        mids[k - 1].lemma_fed_wf(starts[k - 1], sample(inputs, k - 1), sigma);
        starts[k - 1 + 1].lemma_back_propagated_wf(mids[k - 1], sample(targets, k - 1), dsigma);
        let (errs, deltas) = choose|errs: Seq<Grid<T>>, deltas: Seq<Grid<T>>| #[trigger]
            mids[k - 1].back_trace(sample(targets, k - 1), dsigma, errs, deltas) && starts[k - 1
                + 1].accumulated(mids[k - 1], deltas);
    }
}

/// Two passes over one batch from one network go through the same
/// networks.
pub proof fn lemma_epochs_agree<T, S, D>(
    inputs: Grid<T>,
    targets: Grid<T>,
    sigma: S,
    dsigma: D,
    starts: Seq<Net<T>>,
    mids: Seq<Net<T>>,
    starts2: Seq<Net<T>>,
    mids2: Seq<Net<T>>,
    k: int,
) where
    T: Default + Add<Output = T> + Sub<Output = T> + Mul<Output = T>,
    S: Fn(T) -> T,
    D: Fn(T) -> T,

    requires
        arithmetic_is_function::<T>(),
        is_function(sigma),
        is_function(dsigma),
        inputs.wf(),
        targets.wf(),
        starts[0].wf(),
        starts[0].batch_fits(inputs, targets),
        starts[0] == starts2[0],
        epoch_trace(inputs, targets, sigma, dsigma, starts, mids),
        epoch_trace(inputs, targets, sigma, dsigma, starts2, mids2),
        0 <= k <= inputs.height(),
    ensures
        starts[k] == starts2[k],
    decreases k,
{
    if k > 0 {
        lemma_epochs_agree(inputs, targets, sigma, dsigma, starts, mids, starts2, mids2, k - 1);
        lemma_epoch_wf(inputs, targets, sigma, dsigma, starts, mids, k - 1);
        lemma_sample_is_column(inputs, k - 1);
        mids[k - 1].lemma_fed_unique(mids2[k - 1], starts[k - 1], sample(inputs, k - 1), sigma);
        mids[k - 1].lemma_fed_wf(starts[k - 1], sample(inputs, k - 1), sigma);
        starts[k - 1 + 1].lemma_back_propagated_unique(
            starts2[k - 1 + 1],
            mids[k - 1],
            sample(targets, k - 1),
            dsigma,
        );
    }
}

impl<T: Default + Add<Output = T> + Sub<Output = T> + Mul<Output = T>> Net<T> {
    /// A round of training on a batch that fits leaves the network well
    /// formed.
    pub proof fn lemma_trained_wf<S: Fn(T) -> T, D: Fn(T) -> T>(
        self,
        old: Net<T>,
        inputs: Grid<T>,
        targets: Grid<T>,
        rate: T,
        sigma: S,
        dsigma: D,
    )
        requires
            old.wf(),
            inputs.wf(),
            targets.wf(),
            old.batch_fits(inputs, targets),
            self.trained(old, inputs, targets, rate, sigma, dsigma),
        ensures
            self.wf(),
    {
        let (starts, mids) = choose|starts: Seq<Net<T>>, mids: Seq<Net<T>>| #[trigger]
            epoch_trace(inputs, targets, sigma, dsigma, starts, mids) && starts[0].cleared(old)
                && self.updated(starts.last(), rate);
        starts[0].lemma_cleared_wf(old);
        lemma_epoch_wf(inputs, targets, sigma, dsigma, starts, mids, inputs.height() as int);
        self.lemma_updated_wf(starts.last(), rate);
    }

    /// A round of training has one result only.
    pub proof fn lemma_trained_unique<S: Fn(T) -> T, D: Fn(T) -> T>(
        self,
        other: Net<T>,
        old: Net<T>,
        inputs: Grid<T>,
        targets: Grid<T>,
        rate: T,
        sigma: S,
        dsigma: D,
    )
        requires
            arithmetic_is_function::<T>(),
            is_function(sigma),
            is_function(dsigma),
            old.wf(),
            inputs.wf(),
            targets.wf(),
            old.batch_fits(inputs, targets),
            self.trained(old, inputs, targets, rate, sigma, dsigma),
            other.trained(old, inputs, targets, rate, sigma, dsigma),
        ensures
            self == other,
    {
        let (starts, mids) = choose|starts: Seq<Net<T>>, mids: Seq<Net<T>>| #[trigger]
            epoch_trace(inputs, targets, sigma, dsigma, starts, mids) && starts[0].cleared(old)
                && self.updated(starts.last(), rate);
        let (starts2, mids2) = choose|starts: Seq<Net<T>>, mids: Seq<Net<T>>| #[trigger]
            epoch_trace(inputs, targets, sigma, dsigma, starts, mids) && starts[0].cleared(old)
                && other.updated(starts.last(), rate);
        starts[0].lemma_cleared_wf(old);
        starts[0].lemma_cleared_unique(starts2[0], old);
        let n = inputs.height() as int;
        lemma_epochs_agree(inputs, targets, sigma, dsigma, starts, mids, starts2, mids2, n);
        lemma_epoch_wf(inputs, targets, sigma, dsigma, starts, mids, n);
        self.lemma_updated_unique(other, starts.last(), rate);
    }
}

} // verus!
