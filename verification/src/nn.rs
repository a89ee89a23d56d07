//! A feed-forward network trained by batch gradient descent.
use vstd::prelude::*;
use core::ops::{Add, Mul, Sub};
use rand::distributions::{Distribution, Standard};
use rand::rngs::StdRng;
use crate::error::Error;
use crate::grid::Grid;
use crate::linalg::Matrix;
use crate::net::{
    column_shaped, delta_of, epoch_trace, sample, total, total_arithmetic, weight_shaped, Net,
};
use crate::rng::seeded;

verus! {

/// A network with its weights and biases, the buffers of its last forward
/// pass, its summed gradients, and the activation function with its
/// derivative.
pub struct NN<T, S, D> {
    layers: Vec<usize>,
    x: Matrix<T>,
    a: Vec<Matrix<T>>,
    z: Vec<Matrix<T>>,
    w: Vec<Matrix<T>>,
    b: Vec<Matrix<T>>,
    dcdb: Vec<Matrix<T>>,
    dcdw: Vec<Matrix<T>>,
    sigma: S,
    dsigma: D,
}

/// The layer sizes are such that the entries of every weight matrix can be
/// counted.
pub open spec fn fits(layers: Seq<usize>) -> bool {
    forall|l: int| 0 <= l < layers.len() - 1 ==> #[trigger] layers[l + 1] * layers[l] <= usize::MAX
}

/// Whether the layer sizes are such that the entries of every weight matrix
/// can be counted.
pub fn can_hold(layers: &[usize]) -> (r: bool)
    ensures
        r == fits(layers@),
{
    let mut l: usize = 1;
    while l < layers.len()
        invariant
            1 <= l,
            forall|k: int| 0 <= k < l - 1 ==> #[trigger] layers@[k + 1] * layers@[k] <= usize::MAX,
        decreases layers@.len() - l,
    {
        if layers[l].checked_mul(layers[l - 1]).is_none() {
            assert(layers@[l - 1 + 1] * layers@[l - 1] > usize::MAX);
            return false;
        }
        l += 1;
    }
    true
}

/// The grids of a sequence of matrices.
pub open spec fn grids<T>(ms: Seq<Matrix<T>>) -> Seq<Grid<T>> {
    Seq::new(ms.len(), |l: int| ms[l]@)
}

impl<T, S, D> View for NN<T, S, D> {
    type V = Net<T>;

    closed spec fn view(&self) -> Net<T> {
        Net {
            sizes: self.layers@,
            input: self.x@,
            weights: grids(self.w@),
            biases: grids(self.b@),
            sums: grids(self.z@),
            outputs: grids(self.a@),
            weight_grads: grids(self.dcdw@),
            bias_grads: grids(self.dcdb@),
        }
    }
}

impl<T, S, D> NN<T, S, D> where
    T: Copy + Default + Add<Output = T> + Sub<Output = T> + Mul<Output = T>,
    S: Fn(T) -> T,
    D: Fn(T) -> T,
 {
    /// The buffers have the shapes that the layer sizes ask for, the entry
    /// type's arithmetic is total, and the two functions accept every value.
    pub open spec fn wf(&self) -> bool {
        &&& self@.wf()
        &&& total_arithmetic::<T>()
        &&& total(self.activation())
        &&& total(self.slope())
    }

    /// The activation function.
    pub closed spec fn activation(&self) -> S {
        self.sigma
    }

    /// The derivative of the activation function.
    pub closed spec fn slope(&self) -> D {
        self.dsigma
    }

    /// One zero matrix per layer: of the shape of the layer's weights, or a
    /// column of the layer's height.
    fn zeros(layers: &[usize], columns: bool) -> (r: Vec<Matrix<T>>)
        requires
            layers@.len() >= 2,
            fits(layers@),
        ensures
            r@.len() == layers@.len() - 1,
            forall|l: int|
                0 <= l < r@.len() ==> (#[trigger] r@[l])@.all_zero() && if columns {
                    column_shaped(layers@, l, r@[l]@)
                } else {
                    weight_shaped(layers@, l, r@[l]@)
                },
    {
        let depth = layers.len() - 1;
        let mut r: Vec<Matrix<T>> = Vec::new();
        let mut l: usize = 0;
        while l < depth
            invariant
                l <= depth,
                depth == layers@.len() - 1,
                fits(layers@),
                r@.len() == l,
                forall|k: int|
                    0 <= k < l ==> (#[trigger] r@[k])@.all_zero() && if columns {
                        column_shaped(layers@, k, r@[k]@)
                    } else {
                        weight_shaped(layers@, k, r@[k]@)
                    },
            decreases depth - l,
        {
            let width = if columns {
                1
            } else {
                layers[l]
            };
            assert(layers@[l + 1] * layers@[l as int] <= usize::MAX);
            r.push(Matrix::new(layers[l + 1], width));
            l += 1;
        }
        r
    }

    /// One matrix per layer, drawn from `source` layer by layer: of the shape
    /// of the layer's weights, or a column of the layer's height.
    fn drawn(layers: &[usize], columns: bool, source: &mut Option<StdRng>) -> (r: Vec<
        Matrix<T>,
    >) where Standard: Distribution<T>
        requires
            layers@.len() >= 2,
            fits(layers@),
        ensures
            r@.len() == layers@.len() - 1,
            forall|l: int|
                0 <= l < r@.len() ==> if columns {
                    column_shaped(layers@, l, (#[trigger] r@[l])@)
                } else {
                    weight_shaped(layers@, l, r@[l]@)
                },
    {
        let depth = layers.len() - 1;
        let mut r: Vec<Matrix<T>> = Vec::new();
        let mut l: usize = 0;
        while l < depth
            invariant
                l <= depth,
                depth == layers@.len() - 1,
                fits(layers@),
                r@.len() == l,
                forall|k: int|
                    0 <= k < l ==> if columns {
                        column_shaped(layers@, k, (#[trigger] r@[k])@)
                    } else {
                        weight_shaped(layers@, k, r@[k]@)
                    },
            decreases depth - l,
        {
            let width = if columns {
                1
            } else {
                layers[l]
            };
            assert(layers@[l + 1] * layers@[l as int] <= usize::MAX);
            r.push(Matrix::sample(layers[l + 1], width, source));
            l += 1;
        }
        r
    }

    /// Whether `given` holds one matrix per layer, each of the shape of the
    /// layer's weights, or each a column of the layer's height.
    fn shaped(layers: &[usize], columns: bool, given: &Vec<Matrix<T>>) -> (r: bool)
        requires
            layers@.len() >= 2,
        ensures
            r == Self::parameters_fit(layers@, columns, grids(given@)),
    {
        let depth = layers.len() - 1;
        if given.len() != depth {
            return false;
        }
        let mut l: usize = 0;
        while l < depth
            invariant
                l <= depth,
                depth == layers@.len() - 1,
                given@.len() == depth,
                forall|k: int|
                    0 <= k < l ==> if columns {
                        column_shaped(layers@, k, (#[trigger] grids(given@)[k]))
                    } else {
                        weight_shaped(layers@, k, grids(given@)[k])
                    },
            decreases depth - l,
        {
            let shape = given[l].size();
            let width = if columns {
                1
            } else {
                layers[l]
            };
            if shape.0 != layers[l + 1] || shape.1 != width {
                assert(!if columns {
                    column_shaped(layers@, l as int, grids(given@)[l as int])
                } else {
                    weight_shaped(layers@, l as int, grids(given@)[l as int])
                });
                return false;
            }
            l += 1;
        }
        true
    }

    /// `given` holds one grid per layer, each of the shape of the layer's
    /// weights, or each a column of the layer's height.
    pub open spec fn parameters_fit(layers: Seq<usize>, columns: bool, given: Seq<Grid<T>>) -> bool {
        &&& given.len() == layers.len() - 1
        &&& forall|l: int|
            0 <= l < given.len() ==> if columns {
                column_shaped(layers, l, #[trigger] given[l])
            } else {
                weight_shaped(layers, l, given[l])
            }
    }

    /// The network of the given parameters, with buffers and gradients at
    /// zero.
    fn assemble(layers: &[usize], w: Vec<Matrix<T>>, b: Vec<Matrix<T>>, sigma: S, dsigma: D) -> (r:
        Self)
        requires
            layers@.len() >= 2,
            fits(layers@),
            Self::parameters_fit(layers@, false, grids(w@)),
            Self::parameters_fit(layers@, true, grids(b@)),
            total_arithmetic::<T>(),
            total(sigma),
            total(dsigma),
        ensures
            r.starts_as(layers@, sigma, dsigma),
            r@.weights == grids(w@),
            r@.biases == grids(b@),
    {
        let z = Self::zeros(layers, true);
        let a = Self::zeros(layers, true);
        let dcdw = Self::zeros(layers, false);
        let dcdb = Self::zeros(layers, true);
        assert(layers@[0] * 1 <= usize::MAX);
        let x = Matrix::new(layers[0], 1);
        let r = NN {
            layers: vstd::slice::slice_to_vec(layers),
            x,
            a,
            z,
            w,
            b,
            dcdb,
            dcdw,
            sigma,
            dsigma,
        };
        r
    }

    /// Allocates the network, drawing first the weights and then the biases
    /// from `source`.
    fn build(layers: &[usize], source: &mut Option<StdRng>, sigma: S, dsigma: D) -> (r: Self) where
        Standard: Distribution<T>,

        requires
            layers@.len() >= 2,
            fits(layers@),
            total_arithmetic::<T>(),
            total(sigma),
            total(dsigma),
        ensures
            r.starts_as(layers@, sigma, dsigma),
    {
        let w = Self::drawn(layers, false, source);
        let b = Self::drawn(layers, true, source);
        Self::assemble(layers, w, b, sigma, dsigma)
    }

    /// The network of the given layer sizes, weights and biases, with
    /// buffers and gradients at zero. `Configuration` where fewer than two
    /// sizes are given; `ShapeMismatch` unless there is one weight matrix and
    /// one bias column per layer, each of the shape that the sizes ask for.
    pub fn with_parameters(
        layers: &[usize],
        weights: Vec<Matrix<T>>,
        biases: Vec<Matrix<T>>,
        sigma: S,
        dsigma: D,
    ) -> (r: Result<Self, Error>)
        requires
            fits(layers@),
            total_arithmetic::<T>(),
            total(sigma),
            total(dsigma),
        ensures
            layers@.len() < 2 ==> (r matches Err(e) && e == Error::Configuration),
            layers@.len() >= 2 && !(Self::parameters_fit(layers@, false, grids(weights@))
                && Self::parameters_fit(layers@, true, grids(biases@))) ==> (r matches Err(e) && e
                == Error::ShapeMismatch),
            layers@.len() >= 2 && Self::parameters_fit(layers@, false, grids(weights@))
                && Self::parameters_fit(layers@, true, grids(biases@)) ==> (r matches Ok(net)
                && net.starts_as(layers@, sigma, dsigma) && net@.weights == grids(weights@)
                && net@.biases == grids(biases@)),
    {
        if layers.len() < 2 {
            return Err(Error::Configuration);
        }
        if !Self::shaped(layers, false, &weights) || !Self::shaped(layers, true, &biases) {
            return Err(Error::ShapeMismatch);
        }
        Ok(Self::assemble(layers, weights, biases, sigma, dsigma))
    }

    /// A network of the given layer sizes (the input width first) with the
    /// given activation function and its derivative. Weights and biases are
    /// drawn from the generator of the current thread; buffers and gradients
    /// start at zero. `Configuration` where fewer than two sizes are given.
    pub fn new(layers: &[usize], sigma: S, dsigma: D) -> (r: Result<Self, Error>) where
        Standard: Distribution<T>,

        requires
            fits(layers@),
            total_arithmetic::<T>(),
            total(sigma),
            total(dsigma),
        ensures
            layers@.len() < 2 ==> (r matches Err(e) && e == Error::Configuration),
            layers@.len() >= 2 ==> (r matches Ok(net) && net.starts_as(layers@, sigma, dsigma)),
    {
        if layers.len() < 2 {
            return Err(Error::Configuration);
        }
        let mut source: Option<StdRng> = None;
        Ok(Self::build(layers, &mut source, sigma, dsigma))
    }

    /// As `new`, with weights and biases drawn from a generator started with
    /// `seed`.
    pub fn with_seed(layers: &[usize], seed: u64, sigma: S, dsigma: D) -> (r: Result<
        Self,
        Error,
    >) where Standard: Distribution<T>
        requires
            fits(layers@),
            total_arithmetic::<T>(),
            total(sigma),
            total(dsigma),
        ensures
            layers@.len() < 2 ==> (r matches Err(e) && e == Error::Configuration),
            layers@.len() >= 2 ==> (r matches Ok(net) && net.starts_as(layers@, sigma, dsigma)),
    {
        if layers.len() < 2 {
            return Err(Error::Configuration);
        }
        let mut source: Option<StdRng> = Some(seeded(seed));
        Ok(Self::build(layers, &mut source, sigma, dsigma))
    }

    /// The network is as it is when fresh: of the given sizes and functions,
    /// well formed, with buffers and gradients at zero.
    pub open spec fn starts_as(&self, layers: Seq<usize>, sigma: S, dsigma: D) -> bool {
        &&& self.wf()
        &&& self@.sizes == layers
        &&& self.activation() == sigma
        &&& self.slope() == dsigma
        &&& forall|l: int| 0 <= l < self@.depth() ==> (#[trigger] self@.sums[l]).all_zero()
        &&& forall|l: int| 0 <= l < self@.depth() ==> (#[trigger] self@.outputs[l]).all_zero()
        &&& forall|l: int| 0 <= l < self@.depth() ==> (#[trigger] self@.weight_grads[l]).all_zero()
        &&& forall|l: int| 0 <= l < self@.depth() ==> (#[trigger] self@.bias_grads[l]).all_zero()
    }

    /// One forward pass: layer by layer, from the first to the last, the
    /// weighted sums `w * prev + b` and their activations are written to the
    /// buffers. `ShapeMismatch`, and nothing changed, unless `input` is a
    /// column of the network's input width.
    pub fn feedforward(&mut self, input: &Matrix<T>) -> (r: Result<(), Error>)
        requires
            old(self).wf(),
        ensures
            final(self).activation() == old(self).activation(),
            final(self).slope() == old(self).slope(),
            final(self).wf(),
            old(self)@.takes(input@) ==> r is Ok && final(self)@.fed(
                old(self)@,
                input@,
                old(self).activation(),
            ),
            !old(self)@.takes(input@) ==> (r matches Err(e) && e == Error::ShapeMismatch)
                && final(self)@ == old(self)@,
    {
        let shape = input.size();
        if shape.0 != self.layers[0] || shape.1 != 1 {
            return Err(Error::ShapeMismatch);
        }
        self.x = input.clone();
        proof {
            assert forall|l: int| 0 <= l < self@.depth() implies #[trigger] self@.layer_wf(l) by {
                assert(old(self)@.layer_wf(l));
            }
        }
        let depth = self.layers.len() - 1;
        let mut i: usize = 0;
        while i < depth
            invariant
                i <= depth,
                depth == self@.depth(),
                self.wf(),
                self.sigma == old(self).sigma,
                self.dsigma == old(self).dsigma,
                self@.input == input@,
                self@.keeps_parameters(old(self)@),
                self@.keeps_gradients(old(self)@),
                forall|l: int| 0 <= l < i ==> #[trigger] self@.layer_is_fed(self.sigma, l),
            decreases depth - i,
        {
            assert(self@.layer_wf(i as int));
            if i > 0 {
                assert(self@.layer_wf(i - 1));
            }
            let prev = if i == 0 {
                input
            } else {
                &self.a[i - 1]
            };
            let p = self.w[i].dot(prev).unwrap();
            let z = p.add(&self.b[i]).unwrap();
            let a = z.map_with(&self.sigma);
            let ghost before = self@;
            self.z[i] = z;
            self.a[i] = a;
            proof {
                assert forall|l: int| 0 <= l < self@.depth() implies #[trigger] self@.layer_wf(
                    l,
                ) by {
                    assert(before.layer_wf(l));
                }
                assert forall|l: int| 0 <= l < i + 1 implies #[trigger] self@.layer_is_fed(
                    self.sigma,
                    l,
                ) by {
                    if l < i {
                        assert(before.layer_is_fed(self.sigma, l));
                    }
                }
            }
            i += 1;
        }
        Ok(())
    }

    /// One backward pass for the last forward pass: from the last layer to
    /// the first, the error is taken back through the layer and its
    /// contribution is added to the summed gradients. `ShapeMismatch`, and
    /// nothing changed, unless `target` is a column of the network's output
    /// width.
    pub fn backpropagate(&mut self, target: &Matrix<T>) -> (r: Result<(), Error>)
        requires
            old(self).wf(),
        ensures
            final(self).activation() == old(self).activation(),
            final(self).slope() == old(self).slope(),
            final(self).wf(),
            final(self)@.gradients_shaped(),
            old(self)@.gives(target@) ==> r is Ok && final(self)@.back_propagated(
                old(self)@,
                target@,
                old(self).slope(),
            ),
            !old(self)@.gives(target@) ==> (r matches Err(e) && e == Error::ShapeMismatch)
                && final(self)@ == old(self)@,
    {
        let depth = self.layers.len() - 1;
        let shape = target.size();
        if shape.0 != self.layers[depth] || shape.1 != 1 {
            proof {
                self@.lemma_gradients_shaped();
            }
            return Err(Error::ShapeMismatch);
        }
        assert(self@.layer_wf(depth - 1));
        let mut err = self.a[depth - 1].sub(target).unwrap();
        let ghost mut errs: Seq<Grid<T>> = Seq::new(depth as nat, |l: int| err@);
        let ghost mut deltas: Seq<Grid<T>> = Seq::new(depth as nat, |l: int| err@);
        let mut i: usize = depth;
        while i > 0
            invariant
                i <= depth,
                depth == self@.depth(),
                depth == old(self)@.depth(),
                self.wf(),
                old(self).wf(),
                self.sigma == old(self).sigma,
                self.dsigma == old(self).dsigma,
                self@.keeps_parameters(old(self)@),
                self@.keeps_buffers(old(self)@),
                errs.len() == depth,
                deltas.len() == depth,
                i > 0 ==> err@ == errs[i - 1] && self@.is_column(i - 1, err@),
                errs[depth - 1].is_difference_of(old(self)@.outputs[depth - 1], target@),
                forall|l: int|
                    i <= l < depth ==> delta_of(
                        errs[l],
                        old(self)@.sums[l],
                        self.dsigma,
                        #[trigger] deltas[l],
                    ),
                forall|l: int|
                    0 <= l < depth - 1 && i - 1 <= l ==> (#[trigger] errs[l]).is_product_of(
                        old(self)@.weights[l + 1].transposed(),
                        deltas[l + 1],
                    ),
                forall|l: int|
                    i <= l < depth ==> #[trigger] self@.layer_accumulated(old(self)@, deltas, l),
                forall|l: int|
                    0 <= l < i ==> self@.weight_grads[l] == old(self)@.weight_grads[l]
                        && self@.bias_grads[l] == old(self)@.bias_grads[l],
            decreases i,
        {
            i -= 1;
            assert(self@.layer_wf(i as int));
            if i > 0 {
                assert(self@.layer_wf(i - 1));
            }
            let slopes = self.z[i].map_with(&self.dsigma);
            let delta = err.hadamard(&slopes).unwrap();
            let prev = if i == 0 {
                &self.x
            } else {
                &self.a[i - 1]
            };
            let across = prev.transpose();
            proof {
                prev@.lemma_transposed_twice();
            }
            let dw = delta.dot(&across).unwrap();
            let ghost deltas_before = deltas;
            if i > 0 {
                let back = self.w[i].transpose();
                proof {
                    self@.weights[i as int].lemma_transposed_twice();
                }
                err = back.dot(&delta).unwrap();
                proof {
                    errs = errs.update(i - 1, err@);
                }
            }
            let db_sum = self.dcdb[i].add(&delta).unwrap();
            let dw_sum = self.dcdw[i].add(&dw).unwrap();
            let ghost before = self@;
            self.dcdb[i] = db_sum;
            self.dcdw[i] = dw_sum;
            proof {
                deltas = deltas.update(i as int, delta@);
                assert forall|l: int| 0 <= l < self@.depth() implies #[trigger] self@.layer_wf(
                    l,
                ) by {
                    assert(before.layer_wf(l));
                }
                assert forall|l: int| i <= l < depth implies #[trigger] self@.layer_accumulated(
                    old(self)@,
                    deltas,
                    l,
                ) by {
                    if l > i {
                        assert(before.layer_accumulated(old(self)@, deltas_before, l));
                    }
                }
            }
        }
        proof {
            assert(old(self)@.back_trace(target@, self.dsigma, errs, deltas));
            self@.lemma_gradients_shaped();
        }
        Ok(())
    }

    /// The activations of the last layer, as the last forward pass left them.
    pub fn output(&self) -> (r: Matrix<T>)
        requires
            self.wf(),
        ensures
            r@ == self@.outputs.last(),
    {
        self.a[self.a.len() - 1].clone()
    }

    /// One forward pass, and the activations of the last layer after it.
    /// `ShapeMismatch`, and nothing changed, unless `input` is a column of the
    /// network's input width.
    pub fn run(&mut self, input: &Matrix<T>) -> (r: Result<Matrix<T>, Error>)
        requires
            old(self).wf(),
        ensures
            final(self).activation() == old(self).activation(),
            final(self).slope() == old(self).slope(),
            final(self).wf(),
            old(self)@.takes(input@) ==> (r matches Ok(out) && out@ == final(self)@.outputs.last())
                && final(self)@.fed(old(self)@, input@, old(self).activation()),
            !old(self)@.takes(input@) ==> (r matches Err(e) && e == Error::ShapeMismatch)
                && final(self)@ == old(self)@,
    {
        match self.feedforward(input) {
            Ok(()) => Ok(self.output()),
            Err(e) => Err(e),
        }
    }

    /// One round of batch gradient descent on the samples in the rows of
    /// `inputs`, with the targets in the rows of `targets`: the summed
    /// gradients are cleared; every sample in turn is fed forward and its
    /// error propagated back; then every bias and weight is moved by `lr`
    /// times its summed gradient. `ShapeMismatch`, and nothing changed,
    /// unless the batch fits the network.
    pub fn train_batch(&mut self, inputs: &Matrix<T>, targets: &Matrix<T>, lr: T) -> (r: Result<
        (),
        Error,
    >)
        requires
            old(self).wf(),
        ensures
            final(self).activation() == old(self).activation(),
            final(self).slope() == old(self).slope(),
            final(self).wf(),
            old(self)@.batch_fits(inputs@, targets@) ==> r is Ok && final(self)@.trained(
                old(self)@,
                inputs@,
                targets@,
                lr,
                old(self).activation(),
                old(self).slope(),
            ),
            !old(self)@.batch_fits(inputs@, targets@) ==> (r matches Err(e) && e
                == Error::ShapeMismatch) && final(self)@ == old(self)@,
    {
        let depth = self.layers.len() - 1;
        let given = inputs.size();
        let wanted = targets.size();
        if given.0 != wanted.0 || given.1 != self.layers[0] || wanted.1 != self.layers[depth] {
            return Err(Error::ShapeMismatch);
        }
        let mut l: usize = 0;
        while l < depth
            invariant
                l <= depth,
                depth == self@.depth(),
                self.wf(),
                self.sigma == old(self).sigma,
                self.dsigma == old(self).dsigma,
                self@.keeps_parameters(old(self)@),
                self@.keeps_buffers(old(self)@),
                forall|k: int| 0 <= k < l ==> (#[trigger] self@.weight_grads[k]).all_zero(),
                forall|k: int| 0 <= k < l ==> (#[trigger] self@.bias_grads[k]).all_zero(),
            decreases depth - l,
        {
            let ghost before = self@;
            self.dcdb[l].clear();
            self.dcdw[l].clear();
            proof {
                assert forall|k: int| 0 <= k < self@.depth() implies #[trigger] self@.layer_wf(
                    k,
                ) by {
                    assert(before.layer_wf(k));
                }
                assert forall|k: int| 0 <= k < l + 1 implies (
                #[trigger] self@.weight_grads[k]).all_zero() by {
                    if k < l {
                        assert(before.weight_grads[k].all_zero());
                    }
                }
                assert forall|k: int| 0 <= k < l + 1 implies (
                #[trigger] self@.bias_grads[k]).all_zero() by {
                    if k < l {
                        assert(before.bias_grads[k].all_zero());
                    }
                }
            }
            l += 1;
        }
        proof {
            assert forall|k: int| 0 <= k < self@.depth() implies (
            #[trigger] self@.weight_grads[k]).all_zero() && self@.weight_grads[k].wf()
                && self@.weight_grads[k].same_shape(old(self)@.weight_grads[k]) by {
                assert(self@.layer_wf(k));
                assert(old(self)@.layer_wf(k));
            }
            assert forall|k: int| 0 <= k < self@.depth() implies (
            #[trigger] self@.bias_grads[k]).all_zero() && self@.bias_grads[k].wf()
                && self@.bias_grads[k].same_shape(old(self)@.bias_grads[k]) by {
                assert(self@.layer_wf(k));
                assert(old(self)@.layer_wf(k));
            }
        }
        let count = given.0;
        let ghost mut starts: Seq<Net<T>> = seq![self@];
        let ghost mut mids: Seq<Net<T>> = Seq::empty();
        let mut i: usize = 0;
        while i < count
            invariant
                i <= count,
                count == inputs@.height(),
                inputs@.wf(),
                targets@.wf(),
                old(self)@.batch_fits(inputs@, targets@),
                self.wf(),
                self.sigma == old(self).sigma,
                self.dsigma == old(self).dsigma,
                self@.sizes == old(self)@.sizes,
                starts.len() == i + 1,
                mids.len() == i,
                starts[i as int] == self@,
                starts[0].cleared(old(self)@),
                forall|k: int|
                    0 <= k < i ==> (#[trigger] mids[k]).fed(
                        starts[k],
                        sample(inputs@, k),
                        self.sigma,
                    ) && starts[k + 1].back_propagated(mids[k], sample(targets@, k), self.dsigma),
            decreases count - i,
        {
            let input = inputs.get_row(i).unwrap().transpose();
            let target = targets.get_row(i).unwrap().transpose();
            self.feedforward(&input).unwrap();
            let ghost mid = self@;
            self.backpropagate(&target).unwrap();
            proof {
                mids = mids.push(mid);
                starts = starts.push(self@);
            }
            i += 1;
        }
        let ghost summed = self@;
        let mut l: usize = 0;
        while l < depth
            invariant
                l <= depth,
                depth == self@.depth(),
                self.wf(),
                self.sigma == old(self).sigma,
                self.dsigma == old(self).dsigma,
                self@.sizes == summed.sizes,
                self@.keeps_gradients(summed),
                self@.keeps_buffers(summed),
                self@.weights.len() == summed.weights.len(),
                self@.biases.len() == summed.biases.len(),
                forall|k: int| 0 <= k < l ==> #[trigger] self@.layer_updated(summed, lr, k),
                forall|k: int|
                    l <= k < depth ==> self@.weights[k] == summed.weights[k] && self@.biases[k]
                        == summed.biases[k],
            decreases depth - l,
        {
            let ghost before = self@;
            assert(before.layer_wf(l as int));
            let db = self.dcdb[l].scale(lr);
            let nb = self.b[l].sub(&db).unwrap();
            let dw = self.dcdw[l].scale(lr);
            let nw = self.w[l].sub(&dw).unwrap();
            self.b[l] = nb;
            self.w[l] = nw;
            proof {
                assert forall|k: int| 0 <= k < self@.depth() implies #[trigger] self@.layer_wf(
                    k,
                ) by {
                    assert(before.layer_wf(k));
                }
                assert forall|k: int| 0 <= k < l + 1 implies #[trigger] self@.layer_updated(
                    summed,
                    lr,
                    k,
                ) by {
                    if k < l {
                        assert(before.layer_updated(summed, lr, k));
                    }
                }
            }
            l += 1;
        }
        proof {
            assert(epoch_trace(inputs@, targets@, self.sigma, self.dsigma, starts, mids));
        }
        Ok(())
    }

    /// The number of layers.
    pub fn depth(&self) -> (r: usize)
        requires
            self.wf(),
        ensures
            r == self@.depth(),
    {
        self.layers.len() - 1
    }

    /// The weights of layer `l`, where there is such a layer.
    pub fn weight(&self, l: usize) -> (r: Option<&Matrix<T>>)
        requires
            self.wf(),
        ensures
            l < self@.depth() ==> (r matches Some(m) && m@ == self@.weights[l as int]),
            l >= self@.depth() ==> r is None,
    {
        if l < self.w.len() {
            Some(&self.w[l])
        } else {
            None
        }
    }

    /// The biases of layer `l`, where there is such a layer.
    pub fn bias(&self, l: usize) -> (r: Option<&Matrix<T>>)
        requires
            self.wf(),
        ensures
            l < self@.depth() ==> (r matches Some(m) && m@ == self@.biases[l as int]),
            l >= self@.depth() ==> r is None,
    {
        if l < self.b.len() {
            Some(&self.b[l])
        } else {
            None
        }
    }

    /// The summed gradient with respect to the weights of layer `l`, where
    /// there is such a layer.
    pub fn weight_gradient(&self, l: usize) -> (r: Option<&Matrix<T>>)
        requires
            self.wf(),
        ensures
            l < self@.depth() ==> (r matches Some(m) && m@ == self@.weight_grads[l as int]),
            l >= self@.depth() ==> r is None,
    {
        if l < self.dcdw.len() {
            Some(&self.dcdw[l])
        } else {
            None
        }
    }

    /// The summed gradient with respect to the biases of layer `l`, where
    /// there is such a layer.
    pub fn bias_gradient(&self, l: usize) -> (r: Option<&Matrix<T>>)
        requires
            self.wf(),
        ensures
            l < self@.depth() ==> (r matches Some(m) && m@ == self@.bias_grads[l as int]),
            l >= self@.depth() ==> r is None,
    {
        if l < self.dcdb.len() {
            Some(&self.dcdb[l])
        } else {
            None
        }
    }
}

} // verus!
