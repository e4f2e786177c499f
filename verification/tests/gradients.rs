//! The per-layer gradient computations on concrete values.

use spectrum_reader::activation::Activation;
use spectrum_reader::computations::{
    compute_backpropogated_grad, compute_bias_grad, compute_hidden_grad, compute_output_grad,
    compute_recurrence_grad,
};
use spectrum_reader::configs::{ActivationConfig, ParameterConfig, WeightConfig};
use spectrum_reader::fixed::SCALE;
use spectrum_reader::params::Weight;
use spectrum_reader::rnn::RNN;
use spectrum_reader::Fixed;

fn fx(x: f64) -> Fixed {
    Fixed::from_raw((x * (SCALE as f64)).round() as i64)
}

fn fxv(xs: &[f64]) -> Vec<Fixed> {
    xs.iter().map(|&x| fx(x)).collect()
}

fn rounded(f: Fixed) -> f64 {
    (f.raw() as f64 / SCALE as f64).round()
}

fn weight_rounded(w: &Weight) -> Vec<f64> {
    let (rows, cols) = w.dim();
    let mut out = Vec::new();
    for r in 0..rows {
        for c in 0..cols {
            out.push(rounded(w.get(r, c)));
        }
    }
    out
}

fn weight_exact(w: &Weight) -> Vec<f64> {
    let (rows, cols) = w.dim();
    let mut out = Vec::new();
    for r in 0..rows {
        for c in 0..cols {
            out.push(w.get(r, c).raw() as f64 / SCALE as f64);
        }
    }
    out
}

#[test]
fn computations_hidden_gradient_test() {
    let dim: (usize, usize) = (4, 2);

    let prev_grad = fxv(&[1.0, 2.0]);
    let input_act = fxv(&[1.0, 2.0, 3.0, 4.0]);

    let gradient = compute_hidden_grad(dim, &prev_grad, &input_act);

    let ans = vec![1.0, 2.0, 2.0, 4.0, 3.0, 6.0, 4.0, 8.0];
    assert_eq!(weight_exact(&gradient), ans);
}

#[test]
fn computations_bias_gradient_test() {
    let prev_grad = fxv(&[1.0, 2.0]);

    let gradient = compute_bias_grad(&prev_grad);

    assert_eq!(gradient, fxv(&[1.0, 2.0]));
}

#[test]
fn computations_recurrence_gradient_test() {
    let dim: (usize, usize) = (3, 3);

    let prev_grad = fxv(&[1.0, 1.0, 1.0]);
    let prev_act = fxv(&[1.0, 2.0, 3.0]);

    let gradient = compute_recurrence_grad(dim, &prev_grad, Some(&prev_act));

    let ans = vec![1.0, 1.0, 1.0, 2.0, 2.0, 2.0, 3.0, 3.0, 3.0];
    assert_eq!(weight_exact(&gradient), ans);
}

#[test]
fn computations_backprop_test() {
    let hidden_layer_weights = Weight::random(3, 2, fx(0.999), fx(1.0));
    let hidden_actf = Activation::relu();

    let prev_grad = fxv(&[2.0, 2.0]);
    let raw_input = fxv(&[1.0, -1.0, 1.0]);

    let grad = compute_backpropogated_grad(
        &hidden_layer_weights,
        hidden_actf,
        prev_grad,
        &raw_input,
    );

    let got: Vec<f64> = grad.iter().map(|&g| rounded(g)).collect();
    assert_eq!(got, vec![4.0, 0.0, 4.0]);
}

#[test]
fn computations_output_grad_test() {
    let output = fxv(&[0.0, 0.0]);
    let answer = fxv(&[4.0, 2.0]);
    let raw_output = fxv(&[-1.0, 1.0]);

    let end_actf = Activation::relu();

    let grad = compute_output_grad(&output, &answer, &raw_output, end_actf);

    let got: Vec<f64> = grad.iter().map(|&g| rounded(g)).collect();
    assert_eq!(got, vec![0.0, -2.0]);
}

#[test]
fn simple_rnn_hidden_gradient_test() {
    let params = ParameterConfig::new(1, 3, 2, vec![4]);
    let weights = WeightConfig::new(fx(0.999), fx(1.0), fx(-0.01), fx(0.01));
    let activations = ActivationConfig::new(Activation::identity(), Activation::identity());
    let _rnn = RNN::new(&params, weights, &activations);

    let prev_grad = fxv(&[1.0, 2.0]);
    let input_act = fxv(&[1.0, 2.0, 3.0, 4.0]);

    let gradient = compute_hidden_grad((4, 2), &prev_grad, &input_act);

    let ans = vec![1.0, 2.0, 2.0, 4.0, 3.0, 6.0, 4.0, 8.0];
    assert_eq!(weight_exact(&gradient), ans);
}

#[test]
fn simple_rnn_bias_gradient_test() {
    let params = ParameterConfig::new(1, 3, 2, vec![4]);
    let weights = WeightConfig::new(fx(0.999), fx(1.0), fx(-0.01), fx(0.01));
    let activations = ActivationConfig::new(Activation::identity(), Activation::identity());
    let _rnn = RNN::new(&params, weights, &activations);

    let prev_grad = fxv(&[1.0, 2.0]);

    let gradient = compute_bias_grad(&prev_grad);

    assert_eq!(gradient, fxv(&[1.0, 2.0]));
}

#[test]
fn simple_rnn_recurrence_gradient_test() {
    let params = ParameterConfig::new(1, 2, 2, vec![3]);
    let weights = WeightConfig::new(fx(0.999), fx(1.0), fx(-0.01), fx(0.01));
    let activations = ActivationConfig::new(Activation::identity(), Activation::identity());
    let _rnn = RNN::new(&params, weights, &activations);

    let prev_grad = fxv(&[1.0, 1.0, 1.0]);
    let prev_act = fxv(&[1.0, 2.0, 3.0]);

    let gradient = compute_recurrence_grad((3, 3), &prev_grad, Some(&prev_act));

    let ans = vec![1.0, 1.0, 1.0, 2.0, 2.0, 2.0, 3.0, 3.0, 3.0];
    assert_eq!(weight_exact(&gradient), ans);
}

#[test]
fn simple_rnn_backprop_test() {
    let params = ParameterConfig::new(1, 2, 2, vec![3]);
    let weights = WeightConfig::new(fx(0.999), fx(1.0), fx(-0.01), fx(0.01));
    let activations = ActivationConfig::new(Activation::relu(), Activation::relu());
    let _rnn = RNN::new(&params, weights, &activations);

    let hidden_layer_weights = Weight::random(3, 2, fx(0.999), fx(1.0));
    let prev_grad = fxv(&[2.0, 2.0]);
    let raw_input = fxv(&[1.0, -1.0, 1.0]);

    let grad = compute_backpropogated_grad(
        &hidden_layer_weights,
        Activation::relu(),
        prev_grad,
        &raw_input,
    );

    let got: Vec<f64> = grad.iter().map(|&g| rounded(g)).collect();
    assert_eq!(got, vec![4.0, 0.0, 4.0]);
}

#[test]
fn simple_rnn_output_grad_test() {
    let params = ParameterConfig::new(1, 2, 2, vec![3]);
    let weights = WeightConfig::new(fx(0.999), fx(1.0), fx(-0.01), fx(0.01));
    let activations = ActivationConfig::new(Activation::relu(), Activation::relu());
    let _rnn = RNN::new(&params, weights, &activations);

    let output = fxv(&[0.0, 0.0]);
    let answer = fxv(&[4.0, 2.0]);
    let raw_output = fxv(&[-1.0, 1.0]);

    let grad = compute_output_grad(&output, &answer, &raw_output, Activation::relu());

    let got: Vec<f64> = grad.iter().map(|&g| rounded(g)).collect();
    assert_eq!(got, vec![0.0, -2.0]);
}

#[test]
fn rnn_update_test() {
    let params = ParameterConfig::new(2, 2, 2, vec![3, 3]);
    let weights = WeightConfig::new(fx(0.999), fx(1.0), fx(-0.01), fx(0.01));
    let activations = ActivationConfig::new(Activation::relu(), Activation::identity());
    let rnn = RNN::new(&params, weights, &activations);

    let mut update = spectrum_reader::update::Update::new(2, 2, &vec![3, 3], 4);

    let sample = fxv(&[0.0, 0.0]);
    let (_, prev_activations, _) = rnn.feedforward(sample.clone(), &Vec::new());

    let (output, activations_rec, raw_nodes) = rnn.feedforward(sample, &prev_activations);

    println!("Finished feedforward prediction");

    let answer = fxv(&[1.0, 1.0]);

    rnn.add_update(
        &mut update,
        output,
        &answer,
        &activations_rec,
        &prev_activations,
        &raw_nodes,
    );

    assert!(!update.should_update());
    println!("{:?}", weight_rounded(&update.get_hidden_update()[0]));
}

#[test]
fn simple_rnn_update_test() {
    let params = ParameterConfig::new(2, 2, 2, vec![3, 3]);
    let weights = WeightConfig::new(fx(0.999), fx(1.0), fx(-0.01), fx(0.01));
    let activations = ActivationConfig::new(Activation::relu(), Activation::identity());
    let rnn = RNN::new(&params, weights, &activations);

    let mut update = spectrum_reader::update::Update::new(2, 2, &vec![3, 3], 4);

    let sample = fxv(&[0.0, 0.0]);
    let (_, prev_activations, _) = rnn.feedforward(sample.clone(), &Vec::new());

    let (output, activations_rec, raw_nodes) = rnn.feedforward(sample, &prev_activations);

    println!("Finished feedforward prediction");

    let answer = fxv(&[1.0, 1.0]);

    rnn.add_update(
        &mut update,
        output,
        &answer,
        &activations_rec,
        &prev_activations,
        &raw_nodes,
    );

    assert!(!update.should_update());
}
