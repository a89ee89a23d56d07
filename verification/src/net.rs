//! The mathematical model of a network, and of what feeding it forward,
//! propagating an error back through it and updating it do to it.
use vstd::prelude::*;
use core::ops::{Add, Mul, Sub};
use crate::grid::Grid;
use crate::scalar::{can_add, can_mul, can_sub};

verus! {

/// A network of `sizes.len() - 1` layers. Layer `l` takes a column of height
/// `sizes[l]` to a column of height `sizes[l + 1]`.
pub struct Net<T> {
    /// The width of the input, then of every layer.
    pub sizes: Seq<usize>,
    /// The input of the last forward pass: a column.
    pub input: Grid<T>,
    /// Per layer, the weights: `sizes[l + 1]` rows, `sizes[l]` columns.
    pub weights: Seq<Grid<T>>,
    /// Per layer, the biases: a column.
    pub biases: Seq<Grid<T>>,
    /// Per layer, the weighted sums of the last forward pass: a column.
    pub sums: Seq<Grid<T>>,
    /// Per layer, the activations of the last forward pass: a column.
    pub outputs: Seq<Grid<T>>,
    /// Per layer, the gradient with respect to the weights, summed over the
    /// samples seen since it was last cleared.
    pub weight_grads: Seq<Grid<T>>,
    /// Per layer, the gradient with respect to the biases, summed likewise.
    pub bias_grads: Seq<Grid<T>>,
}

/// `g` is a column as high as layer `l` of a network of these sizes is wide.
pub open spec fn column_shaped<T>(sizes: Seq<usize>, l: int, g: Grid<T>) -> bool {
    g.wf() && g.has_shape(sizes[l + 1] as nat, 1)
}

/// `g` has the shape of the weights of layer `l` of a network of these
/// sizes: a row per unit of the layer, a column per unit of the one before.
pub open spec fn weight_shaped<T>(sizes: Seq<usize>, l: int, g: Grid<T>) -> bool {
    g.wf() && g.has_shape(sizes[l + 1] as nat, sizes[l] as nat)
}

/// Every sum, difference and product of two values of `T` may be evaluated.
pub open spec fn total_arithmetic<T: Add<Output = T> + Sub<Output = T> + Mul<Output = T>>() -> bool {
    &&& forall|x: T, y: T| #[trigger] can_add(x, y)
    &&& forall|x: T, y: T| #[trigger] can_sub(x, y)
    &&& forall|x: T, y: T| #[trigger] can_mul(x, y)
}

/// `f` accepts every value of `T`.
pub open spec fn total<T, F: Fn(T) -> T>(f: F) -> bool {
    forall|x: T| #[trigger] call_requires(f, (x,))
}

/// `z` and `a` are what a layer with the weights `w` and the biases `b` may
/// compute from `prev`: `z` is a value of `w * prev + b`, and `a` is `z` with
/// `sigma` applied to every entry.
pub open spec fn layer_fed<T, S>(
    w: Grid<T>,
    b: Grid<T>,
    prev: Grid<T>,
    sigma: S,
    z: Grid<T>,
    a: Grid<T>,
) -> bool where T: Default + Add<Output = T> + Mul<Output = T>, S: Fn(T) -> T {
    &&& exists|p: Grid<T>| #[trigger] p.is_product_of(w, prev) && z.is_sum_of(p, b)
    &&& a.is_image_of(z, sigma)
}

/// `delta` is what the error `err` at the activations of a layer with the
/// weighted sums `z` may come to at the sums: entry by entry, a value of
/// `err * dsigma(z)`.
pub open spec fn delta_of<T, D>(err: Grid<T>, z: Grid<T>, dsigma: D, delta: Grid<T>) -> bool where
    T: Mul<Output = T>,
    D: Fn(T) -> T,
 {
    exists|s: Grid<T>| #[trigger] s.is_image_of(z, dsigma) && delta.is_hadamard_of(err, s)
}

/// `after` is a value of `before + delta * transpose(prev)`.
pub open spec fn weight_grad_added<T>(
    delta: Grid<T>,
    prev: Grid<T>,
    before: Grid<T>,
    after: Grid<T>,
) -> bool where T: Default + Add<Output = T> + Mul<Output = T> {
    exists|g: Grid<T>| #[trigger]
        g.is_product_of(delta, prev.transposed()) && after.is_sum_of(before, g)
}

/// `after` is a value of `before - grad * rate`.
pub open spec fn stepped_against<T>(before: Grid<T>, grad: Grid<T>, rate: T, after: Grid<T>) -> bool where
    T: Sub<Output = T> + Mul<Output = T>,
 {
    exists|s: Grid<T>| #[trigger] s.is_scaled(grad, rate) && after.is_difference_of(before, s)
}

/// Sample `k` of a batch: row `k`, stood up as a column.
pub open spec fn sample<T>(batch: Grid<T>, k: int) -> Grid<T> {
    batch.row_at(k).transposed()
}

/// `starts` and `mids` record one pass over a batch: `starts[k]` is the
/// network before sample `k`, `mids[k]` is it after the forward pass on that
/// sample, and `starts[k + 1]` after the backward pass for the sample's
/// target.
pub open spec fn epoch_trace<T, S, D>(
    inputs: Grid<T>,
    targets: Grid<T>,
    sigma: S,
    dsigma: D,
    starts: Seq<Net<T>>,
    mids: Seq<Net<T>>,
) -> bool where
    T: Default + Add<Output = T> + Sub<Output = T> + Mul<Output = T>,
    S: Fn(T) -> T,
    D: Fn(T) -> T,
 {
    &&& starts.len() == inputs.height() + 1
    &&& mids.len() == inputs.height()
    &&& forall|k: int|
        0 <= k < inputs.height() ==> (#[trigger] mids[k]).fed(starts[k], sample(inputs, k), sigma)
            && starts[k + 1].back_propagated(mids[k], sample(targets, k), dsigma)
}

impl<T> Net<T> {
    /// The number of layers.
    pub open spec fn depth(self) -> int {
        self.sizes.len() - 1
    }

    /// `g` is a column of the height of layer `l`.
    pub open spec fn is_column(self, l: int, g: Grid<T>) -> bool {
        column_shaped(self.sizes, l, g)
    }

    /// `g` has the shape of the weights of layer `l`.
    pub open spec fn is_weight(self, l: int, g: Grid<T>) -> bool {
        weight_shaped(self.sizes, l, g)
    }

    /// Everything that belongs to layer `l` has the shape that the sizes ask
    /// for.
    pub open spec fn layer_wf(self, l: int) -> bool {
        &&& self.sizes[l + 1] * self.sizes[l] <= usize::MAX
        &&& self.is_weight(l, self.weights[l])
        &&& self.is_weight(l, self.weight_grads[l])
        &&& self.is_column(l, self.biases[l])
        &&& self.is_column(l, self.sums[l])
        &&& self.is_column(l, self.outputs[l])
        &&& self.is_column(l, self.bias_grads[l])
    }

    /// There are at least two sizes, and every layer is well formed.
    pub open spec fn wf(self) -> bool {
        &&& self.sizes.len() >= 2
        &&& self.weights.len() == self.depth()
        &&& self.biases.len() == self.depth()
        &&& self.sums.len() == self.depth()
        &&& self.outputs.len() == self.depth()
        &&& self.weight_grads.len() == self.depth()
        &&& self.bias_grads.len() == self.depth()
        &&& self.takes(self.input)
        &&& forall|l: int| 0 <= l < self.depth() ==> #[trigger] self.layer_wf(l)
    }

    /// What layer `l` is fed: the input for the first layer, else the
    /// activations of the layer before.
    pub open spec fn feed(self, l: int) -> Grid<T> {
        if l == 0 {
            self.input
        } else {
            self.outputs[l - 1]
        }
    }

    /// `input` is a column of the width that the network takes.
    pub open spec fn takes(self, input: Grid<T>) -> bool {
        input.wf() && input.has_shape(self.sizes[0] as nat, 1)
    }

    /// `target` is a column of the width that the network gives.
    pub open spec fn gives(self, target: Grid<T>) -> bool {
        target.wf() && target.has_shape(self.sizes.last() as nat, 1)
    }

    /// The sizes, weights and biases are those of `old`.
    pub open spec fn keeps_parameters(self, old: Net<T>) -> bool {
        self.sizes == old.sizes && self.weights == old.weights && self.biases == old.biases
    }

    /// The summed gradients are those of `old`.
    pub open spec fn keeps_gradients(self, old: Net<T>) -> bool {
        self.weight_grads == old.weight_grads && self.bias_grads == old.bias_grads
    }

    /// The input and the buffers of the forward pass are those of `old`.
    pub open spec fn keeps_buffers(self, old: Net<T>) -> bool {
        self.input == old.input && self.sums == old.sums && self.outputs == old.outputs
    }

    /// The buffers of layer `l` hold what the layer may compute from what it
    /// is fed.
    pub open spec fn layer_is_fed<S>(self, sigma: S, l: int) -> bool where
        T: Default + Add<Output = T> + Mul<Output = T>,
        S: Fn(T) -> T,
     {
        layer_fed(
            self.weights[l],
            self.biases[l],
            self.feed(l),
            sigma,
            self.sums[l],
            self.outputs[l],
        )
    }

    /// This network is `old` after a forward pass on `input`: parameters and
    /// gradients are kept, the input is recorded, and the buffers of every
    /// layer, from the first to the last, hold what the layer may compute
    /// from the layer before.
    pub open spec fn fed<S>(self, old: Net<T>, input: Grid<T>, sigma: S) -> bool where
        T: Default + Add<Output = T> + Mul<Output = T>,
        S: Fn(T) -> T,
     {
        &&& self.keeps_parameters(old)
        &&& self.keeps_gradients(old)
        &&& self.input == input
        &&& self.sums.len() == old.sums.len()
        &&& self.outputs.len() == old.outputs.len()
        &&& forall|l: int| 0 <= l < self.depth() ==> #[trigger] self.layer_is_fed(sigma, l)
    }

    /// `errs` and `deltas` record one backward pass for `target`: per layer,
    /// the error at its activations and at its weighted sums. The error at
    /// the last activations is a value of `output - target`; the error at the
    /// sums of a layer is `delta_of` the error at its activations; and the
    /// error at the activations of a layer is a value of the transposed
    /// weights of the next layer times the error at that layer's sums.
    pub open spec fn back_trace<D>(
        self,
        target: Grid<T>,
        dsigma: D,
        errs: Seq<Grid<T>>,
        deltas: Seq<Grid<T>>,
    ) -> bool where T: Default + Add<Output = T> + Sub<Output = T> + Mul<Output = T>, D: Fn(T) -> T {
        &&& errs.len() == self.depth()
        &&& deltas.len() == self.depth()
        &&& errs[self.depth() - 1].is_difference_of(self.outputs[self.depth() - 1], target)
        &&& forall|l: int|
            0 <= l < self.depth() ==> delta_of(errs[l], self.sums[l], dsigma, #[trigger] deltas[l])
        &&& forall|l: int|
            0 <= l < self.depth() - 1 ==> (#[trigger] errs[l]).is_product_of(
                self.weights[l + 1].transposed(),
                deltas[l + 1],
            )
    }

    /// The gradients of layer `l` are those of `old` with the contribution of
    /// one sample added: `deltas[l]` to the bias gradient, and `deltas[l]`
    /// times the transposed feed of the layer to the weight gradient.
    pub open spec fn layer_accumulated(self, old: Net<T>, deltas: Seq<Grid<T>>, l: int) -> bool where
        T: Default + Add<Output = T> + Mul<Output = T>,
     {
        &&& self.bias_grads[l].is_sum_of(old.bias_grads[l], deltas[l])
        &&& weight_grad_added(deltas[l], old.feed(l), old.weight_grads[l], self.weight_grads[l])
    }

    /// This network is `old` with the contribution of one sample added to
    /// the gradients of every layer.
    pub open spec fn accumulated(self, old: Net<T>, deltas: Seq<Grid<T>>) -> bool where
        T: Default + Add<Output = T> + Mul<Output = T>,
     {
        &&& self.keeps_parameters(old)
        &&& self.keeps_buffers(old)
        &&& self.weight_grads.len() == old.weight_grads.len()
        &&& self.bias_grads.len() == old.bias_grads.len()
        &&& forall|l: int|
            0 <= l < self.depth() ==> #[trigger] self.layer_accumulated(old, deltas, l)
    }

    /// This network is `old` after a backward pass for `target`.
    pub open spec fn back_propagated<D>(self, old: Net<T>, target: Grid<T>, dsigma: D) -> bool where
        T: Default + Add<Output = T> + Sub<Output = T> + Mul<Output = T>,
        D: Fn(T) -> T,
     {
        exists|errs: Seq<Grid<T>>, deltas: Seq<Grid<T>>| #[trigger]
            old.back_trace(target, dsigma, errs, deltas) && self.accumulated(old, deltas)
    }

    /// `inputs` and `targets` hold one sample per row, as many of the one as
    /// of the other, of the widths that the network takes and gives.
    pub open spec fn batch_fits(self, inputs: Grid<T>, targets: Grid<T>) -> bool {
        &&& inputs.height() == targets.height()
        &&& inputs.width == self.sizes[0]
        &&& targets.width == self.sizes.last()
    }

    /// This network is `old` with every summed gradient back at zero.
    pub open spec fn cleared(self, old: Net<T>) -> bool where T: Default {
        &&& self.keeps_parameters(old)
        &&& self.keeps_buffers(old)
        &&& self.weight_grads.len() == old.weight_grads.len()
        &&& self.bias_grads.len() == old.bias_grads.len()
        &&& forall|l: int|
            0 <= l < self.depth() ==> (#[trigger] self.weight_grads[l]).all_zero()
                && self.weight_grads[l].wf() && self.weight_grads[l].same_shape(
                old.weight_grads[l],
            )
        &&& forall|l: int|
            0 <= l < self.depth() ==> (#[trigger] self.bias_grads[l]).all_zero()
                && self.bias_grads[l].wf() && self.bias_grads[l].same_shape(old.bias_grads[l])
    }

    /// The biases and weights of layer `l` are those of `old` less `rate`
    /// times the summed gradient.
    pub open spec fn layer_updated(self, old: Net<T>, rate: T, l: int) -> bool where
        T: Sub<Output = T> + Mul<Output = T>,
     {
        &&& stepped_against(old.biases[l], old.bias_grads[l], rate, self.biases[l])
        &&& stepped_against(old.weights[l], old.weight_grads[l], rate, self.weights[l])
    }

    /// This network is `old` after one step against the summed gradients.
    pub open spec fn updated(self, old: Net<T>, rate: T) -> bool where
        T: Sub<Output = T> + Mul<Output = T>,
     {
        &&& self.sizes == old.sizes
        &&& self.keeps_gradients(old)
        &&& self.keeps_buffers(old)
        &&& self.weights.len() == old.weights.len()
        &&& self.biases.len() == old.biases.len()
        &&& forall|l: int| 0 <= l < self.depth() ==> #[trigger] self.layer_updated(old, rate, l)
    }

    /// This network is `old` after one round of batch gradient descent: the
    /// summed gradients are cleared, every sample in turn is fed forward and
    /// its error propagated back, and then one step is taken against the
    /// gradients summed over the batch.
    pub open spec fn trained<S, D>(
        self,
        old: Net<T>,
        inputs: Grid<T>,
        targets: Grid<T>,
        rate: T,
        sigma: S,
        dsigma: D,
    ) -> bool where
        T: Default + Add<Output = T> + Sub<Output = T> + Mul<Output = T>,
        S: Fn(T) -> T,
        D: Fn(T) -> T,
     {
        exists|starts: Seq<Net<T>>, mids: Seq<Net<T>>| #[trigger]
            epoch_trace(inputs, targets, sigma, dsigma, starts, mids) && starts[0].cleared(old)
                && self.updated(starts.last(), rate)
    }

    /// Every summed gradient has the shape of the parameter it belongs to.
    pub open spec fn gradients_shaped(self) -> bool {
        forall|l: int|
            0 <= l < self.depth() ==> (#[trigger] self.weight_grads[l]).same_shape(self.weights[l])
                && self.bias_grads[l].same_shape(self.biases[l])
    }

    /// In a well-formed network every summed gradient has the shape of the
    /// parameter it belongs to.
    pub proof fn lemma_gradients_shaped(self)
        requires
            self.wf(),
        ensures
            self.gradients_shaped(),
    {
        assert forall|l: int| 0 <= l < self.depth() implies (
        #[trigger] self.weight_grads[l]).same_shape(self.weights[l])
            && self.bias_grads[l].same_shape(self.biases[l]) by {
            assert(self.layer_wf(l));
        }
    }
}

} // verus!
