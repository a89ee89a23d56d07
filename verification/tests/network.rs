use mlp::error::Error;
use mlp::linalg::Matrix;
use mlp::nn::{can_hold, NN};

fn sigmoid(x: f64) -> f64 {
    1.0 / (1.0 + (-x).exp())
}

fn dsigmoid(x: f64) -> f64 {
    sigmoid(x) * (1.0 - sigmoid(x))
}

fn identity(x: f64) -> f64 {
    x
}

fn one(_x: f64) -> f64 {
    1.0
}

fn matrix(m: usize, n: usize, values: &[f64]) -> Matrix<f64> {
    Matrix::from(m, n, values).unwrap()
}

fn column(values: &[f64]) -> Matrix<f64> {
    matrix(values.len(), 1, values)
}

/// Two inputs, two hidden units, one output; the activation passed in.
fn small(
    sigma: fn(f64) -> f64,
    dsigma: fn(f64) -> f64,
) -> NN<f64, fn(f64) -> f64, fn(f64) -> f64> {
    let weights = vec![matrix(2, 2, &[1.0, 2.0, 3.0, 4.0]), matrix(1, 2, &[1.0, -1.0])];
    let biases = vec![column(&[0.5, -0.5]), column(&[0.25])];
    NN::with_parameters(&[2, 2, 1], weights, biases, sigma, dsigma).unwrap()
}

#[test]
fn test_nn() {
    // XOR
    let mut nn = NN::new(&[2, 5, 1], sigmoid, dsigmoid).unwrap();
    for _ in 0..1000 {
        nn.train_batch(
            &matrix(4, 2, &[0.0, 0.0, 0.0, 1.0, 1.0, 0.0, 1.0, 1.0]),
            &matrix(4, 1, &[0.0, 1.0, 1.0, 0.0]),
            1.0,
        )
        .unwrap();
    }
    let show = |x: f64| format!("{:.5}", x);
    println!("0 0: {:}", nn.run(&matrix(1, 2, &[0.0, 0.0]).transpose()).unwrap().render(show));
    println!("0 1: {:}", nn.run(&matrix(1, 2, &[0.0, 1.0]).transpose()).unwrap().render(show));
    println!("1 0: {:}", nn.run(&matrix(1, 2, &[1.0, 0.0]).transpose()).unwrap().render(show));
    println!("1 1: {:}", nn.run(&matrix(1, 2, &[1.0, 1.0]).transpose()).unwrap().render(show));
}

#[test]
fn xor_is_learnt() {
    let x = matrix(4, 2, &[0.0, 0.0, 0.0, 1.0, 1.0, 0.0, 1.0, 1.0]);
    let y = matrix(4, 1, &[0.0, 1.0, 1.0, 0.0]);
    for seed in [0u64, 1, 2, 3] {
        let mut nn = NN::with_seed(&[2, 5, 1], seed, sigmoid, dsigmoid).unwrap();
        for _ in 0..1000 {
            nn.train_batch(&x, &y, 1.0).unwrap();
        }
        assert!(nn.run(&column(&[0.0, 0.0])).unwrap().get(0, 0).unwrap() < 0.5);
        assert!(nn.run(&column(&[0.0, 1.0])).unwrap().get(0, 0).unwrap() > 0.5);
        assert!(nn.run(&column(&[1.0, 0.0])).unwrap().get(0, 0).unwrap() > 0.5);
        assert!(nn.run(&column(&[1.0, 1.0])).unwrap().get(0, 0).unwrap() < 0.5);
    }
}

#[test]
fn sigmoid_stays_between_zero_and_one() {
    assert_eq!(sigmoid(0.0), 0.5);
    for x in [-30.0, -5.0, -1.0, -1e-9, 1e-9, 1.0, 5.0, 30.0] {
        let s = sigmoid(x);
        assert!(0.0 < s && s < 1.0);
    }
    assert_eq!(dsigmoid(0.0), 0.25);
}

#[test]
fn a_fresh_network_has_the_shapes_of_its_sizes() {
    let nn = NN::with_seed(&[3, 4, 2], 5, sigmoid, dsigmoid).unwrap();
    assert_eq!(nn.depth(), 2);
    assert_eq!(nn.weight(0).unwrap().size(), (4, 3));
    assert_eq!(nn.weight(1).unwrap().size(), (2, 4));
    assert_eq!(nn.bias(0).unwrap().size(), (4, 1));
    assert_eq!(nn.bias(1).unwrap().size(), (2, 1));
    assert_eq!(*nn.weight_gradient(0).unwrap(), Matrix::new(4, 3));
    assert_eq!(*nn.weight_gradient(1).unwrap(), Matrix::new(2, 4));
    assert_eq!(*nn.bias_gradient(0).unwrap(), Matrix::new(4, 1));
    assert_eq!(*nn.bias_gradient(1).unwrap(), Matrix::new(2, 1));
    assert_eq!(nn.output(), Matrix::new(2, 1));
    assert!(nn.weight(2).is_none());
    assert!(nn.bias(2).is_none());
    assert!(nn.weight_gradient(2).is_none());
    assert!(nn.bias_gradient(2).is_none());
}

#[test]
fn weights_and_biases_are_drawn_from_the_unit_interval() {
    let nn = NN::new(&[3, 4, 2], sigmoid, dsigmoid).unwrap();
    for l in 0..2 {
        let w = nn.weight(l).unwrap();
        for i in 0..w.rows() {
            for j in 0..w.cols() {
                let x = w.get(i, j).unwrap();
                assert!(0.0 <= x && x < 1.0);
            }
        }
        let b = nn.bias(l).unwrap();
        for i in 0..b.rows() {
            let x = b.get(i, 0).unwrap();
            assert!(0.0 <= x && x < 1.0);
        }
    }
}

#[test]
fn a_seed_fixes_the_network() {
    let a = NN::with_seed(&[2, 3, 1], 9, sigmoid, dsigmoid).unwrap();
    let b = NN::with_seed(&[2, 3, 1], 9, sigmoid, dsigmoid).unwrap();
    let c = NN::with_seed(&[2, 3, 1], 10, sigmoid, dsigmoid).unwrap();
    for l in 0..2 {
        assert_eq!(a.weight(l), b.weight(l));
        assert_eq!(a.bias(l), b.bias(l));
    }
    assert!(a.weight(0) != c.weight(0));
    assert!(*a.weight(0).unwrap() != Matrix::new(3, 2));
}

#[test]
fn fewer_than_two_layers_are_refused() {
    assert_eq!(NN::<f64, _, _>::new(&[], sigmoid, dsigmoid).err(), Some(Error::Configuration));
    assert_eq!(NN::<f64, _, _>::new(&[3], sigmoid, dsigmoid).err(), Some(Error::Configuration));
    assert_eq!(
        NN::<f64, _, _>::with_seed(&[3], 1, sigmoid, dsigmoid).err(),
        Some(Error::Configuration)
    );
    assert_eq!(
        NN::<f64, _, _>::with_parameters(&[3], vec![], vec![], sigmoid, dsigmoid).err(),
        Some(Error::Configuration)
    );
    assert!(NN::<f64, _, _>::new(&[3, 1], sigmoid, dsigmoid).is_ok());
}

#[test]
fn parameters_of_the_wrong_shape_are_refused() {
    let weights = vec![matrix(2, 2, &[1.0, 2.0, 3.0, 4.0]), matrix(2, 1, &[1.0, -1.0])];
    let biases = vec![column(&[0.5, -0.5]), column(&[0.25])];
    assert_eq!(
        NN::with_parameters(&[2, 2, 1], weights, biases, identity, one).err(),
        Some(Error::ShapeMismatch)
    );
    let weights = vec![matrix(2, 2, &[1.0, 2.0, 3.0, 4.0]), matrix(1, 2, &[1.0, -1.0])];
    let biases = vec![column(&[0.5, -0.5])];
    assert_eq!(
        NN::with_parameters(&[2, 2, 1], weights, biases, identity, one).err(),
        Some(Error::ShapeMismatch)
    );
}

#[test]
fn feedforward_computes_layer_by_layer() {
    let mut nn = small(identity, one);
    nn.feedforward(&column(&[1.0, 2.0])).unwrap();
    assert_eq!(nn.output(), column(&[-4.75]));
    assert_eq!(nn.run(&column(&[0.0, 0.0])).unwrap(), column(&[1.25]));
}

#[test]
fn feedforward_applies_the_activation() {
    fn double(x: f64) -> f64 {
        2.0 * x
    }
    let mut nn = small(double, one);
    // z0 = (5.5, 10.5), a0 = (11, 21), z1 = 11 - 21 + 0.25, a1 = 2 * z1
    assert_eq!(nn.run(&column(&[1.0, 2.0])).unwrap(), column(&[-19.5]));
    let mut nn = small(sigmoid, dsigmoid);
    let out = nn.run(&column(&[1.0, 2.0])).unwrap().get(0, 0).unwrap();
    let expected = sigmoid(sigmoid(5.5) - sigmoid(10.5) + 0.25);
    assert_eq!(out, expected);
}

#[test]
fn feedforward_refuses_the_wrong_input() {
    let mut nn = small(identity, one);
    nn.feedforward(&column(&[1.0, 2.0])).unwrap();
    assert_eq!(nn.feedforward(&column(&[1.0, 2.0, 3.0])).err(), Some(Error::ShapeMismatch));
    assert_eq!(nn.feedforward(&matrix(1, 2, &[1.0, 2.0])).err(), Some(Error::ShapeMismatch));
    assert_eq!(nn.run(&matrix(2, 2, &[1.0, 2.0, 3.0, 4.0])).err(), Some(Error::ShapeMismatch));
    assert_eq!(nn.output(), column(&[-4.75]));
}

#[test]
fn backpropagate_sums_the_gradients() {
    let mut nn = small(identity, one);
    nn.feedforward(&column(&[1.0, 2.0])).unwrap();
    nn.backpropagate(&column(&[1.0])).unwrap();
    assert_eq!(*nn.bias_gradient(1).unwrap(), column(&[-5.75]));
    assert_eq!(*nn.weight_gradient(1).unwrap(), matrix(1, 2, &[-31.625, -60.375]));
    assert_eq!(*nn.bias_gradient(0).unwrap(), column(&[-5.75, 5.75]));
    assert_eq!(*nn.weight_gradient(0).unwrap(), matrix(2, 2, &[-5.75, -11.5, 5.75, 11.5]));
    nn.backpropagate(&column(&[1.0])).unwrap();
    assert_eq!(*nn.bias_gradient(1).unwrap(), column(&[-11.5]));
    assert_eq!(*nn.weight_gradient(0).unwrap(), matrix(2, 2, &[-11.5, -23.0, 11.5, 23.0]));
    assert_eq!(*nn.weight(0).unwrap(), matrix(2, 2, &[1.0, 2.0, 3.0, 4.0]));
    assert_eq!(nn.output(), column(&[-4.75]));
}

#[test]
fn backpropagate_uses_the_slope() {
    fn two(_x: f64) -> f64 {
        2.0
    }
    let mut nn = small(identity, two);
    nn.feedforward(&column(&[1.0, 2.0])).unwrap();
    nn.backpropagate(&column(&[1.0])).unwrap();
    // delta1 = -5.75 * 2, err0 = (1, -1) * delta1, delta0 = err0 * 2
    assert_eq!(*nn.bias_gradient(1).unwrap(), column(&[-11.5]));
    assert_eq!(*nn.bias_gradient(0).unwrap(), column(&[-23.0, 23.0]));
    assert_eq!(*nn.weight_gradient(0).unwrap(), matrix(2, 2, &[-23.0, -46.0, 23.0, 46.0]));
}

#[test]
fn gradients_keep_the_shapes_of_the_parameters() {
    let mut nn = NN::with_seed(&[3, 4, 2], 3, sigmoid, dsigmoid).unwrap();
    nn.feedforward(&column(&[0.1, 0.2, 0.3])).unwrap();
    nn.backpropagate(&column(&[1.0, 0.0])).unwrap();
    for l in 0..2 {
        assert_eq!(nn.weight_gradient(l).unwrap().size(), nn.weight(l).unwrap().size());
        assert_eq!(nn.bias_gradient(l).unwrap().size(), nn.bias(l).unwrap().size());
    }
    assert!(*nn.weight_gradient(0).unwrap() != Matrix::new(4, 3));
}

#[test]
fn backpropagate_refuses_the_wrong_target() {
    let mut nn = small(identity, one);
    nn.feedforward(&column(&[1.0, 2.0])).unwrap();
    assert_eq!(nn.backpropagate(&column(&[1.0, 2.0])).err(), Some(Error::ShapeMismatch));
    assert_eq!(nn.backpropagate(&matrix(1, 2, &[1.0, 2.0])).err(), Some(Error::ShapeMismatch));
    assert_eq!(*nn.bias_gradient(1).unwrap(), column(&[0.0]));
}

#[test]
fn train_batch_takes_one_step_against_the_summed_gradient() {
    let mut nn = small(identity, one);
    nn.train_batch(&matrix(1, 2, &[1.0, 2.0]), &matrix(1, 1, &[1.0]), 0.5).unwrap();
    assert_eq!(*nn.bias(1).unwrap(), column(&[3.125]));
    assert_eq!(*nn.weight(1).unwrap(), matrix(1, 2, &[16.8125, 29.1875]));
    assert_eq!(*nn.bias(0).unwrap(), column(&[3.375, -3.375]));
    assert_eq!(*nn.weight(0).unwrap(), matrix(2, 2, &[3.875, 7.75, 0.125, -1.75]));
}

#[test]
fn train_batch_sums_over_the_samples() {
    let mut nn = small(identity, one);
    let inputs = matrix(2, 2, &[1.0, 2.0, 0.0, 0.0]);
    let targets = matrix(2, 1, &[1.0, 1.25]);
    nn.train_batch(&inputs, &targets, 0.0).unwrap();
    // the second sample gives the output 1.25: it adds nothing
    assert_eq!(*nn.bias_gradient(1).unwrap(), column(&[-5.75]));
    assert_eq!(*nn.weight(0).unwrap(), matrix(2, 2, &[1.0, 2.0, 3.0, 4.0]));
    let targets = matrix(2, 1, &[1.0, 0.25]);
    nn.train_batch(&inputs, &targets, 0.0).unwrap();
    assert_eq!(*nn.bias_gradient(1).unwrap(), column(&[-4.75]));
    assert_eq!(*nn.bias_gradient(0).unwrap(), column(&[-4.75, 4.75]));
}

#[test]
fn train_batch_clears_the_gradients_first() {
    let mut nn = small(identity, one);
    let inputs = matrix(1, 2, &[1.0, 2.0]);
    let targets = matrix(1, 1, &[1.0]);
    nn.train_batch(&inputs, &targets, 0.0).unwrap();
    nn.train_batch(&inputs, &targets, 0.0).unwrap();
    assert_eq!(*nn.bias_gradient(1).unwrap(), column(&[-5.75]));
    assert_eq!(*nn.weight_gradient(0).unwrap(), matrix(2, 2, &[-5.75, -11.5, 5.75, 11.5]));
}

#[test]
fn train_batch_refuses_a_batch_that_does_not_fit() {
    let mut nn = small(identity, one);
    let before = nn.weight(0).unwrap().clone();
    assert_eq!(
        nn.train_batch(&matrix(2, 2, &[1.0, 2.0, 3.0, 4.0]), &matrix(1, 1, &[1.0]), 0.5).err(),
        Some(Error::ShapeMismatch)
    );
    assert_eq!(
        nn.train_batch(&matrix(1, 3, &[1.0, 2.0, 3.0]), &matrix(1, 1, &[1.0]), 0.5).err(),
        Some(Error::ShapeMismatch)
    );
    assert_eq!(
        nn.train_batch(&matrix(1, 2, &[1.0, 2.0]), &matrix(1, 2, &[1.0, 1.0]), 0.5).err(),
        Some(Error::ShapeMismatch)
    );
    assert_eq!(*nn.weight(0).unwrap(), before);
}

#[test]
fn train_batch_without_samples_changes_no_parameter() {
    let mut nn = small(identity, one);
    nn.train_batch(&Matrix::new(0, 2), &Matrix::new(0, 1), 0.5).unwrap();
    assert_eq!(*nn.weight(0).unwrap(), matrix(2, 2, &[1.0, 2.0, 3.0, 4.0]));
    assert_eq!(*nn.bias(1).unwrap(), column(&[0.25]));
}

#[test]
fn can_hold_tells_whether_the_weights_can_be_counted() {
    assert!(can_hold(&[]));
    assert!(can_hold(&[usize::MAX]));
    assert!(can_hold(&[21, 10, 1]));
    assert!(can_hold(&[usize::MAX, 1, usize::MAX]));
    assert!(!can_hold(&[usize::MAX, 2]));
    assert!(!can_hold(&[3, 1 << 40, 1 << 40, 2]));
}
