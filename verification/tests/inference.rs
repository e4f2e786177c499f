//! Inference behaviour: determinism, recurrent state, and the
//! zero-recurrence reading of a first timestep.

use spectrum_reader::activation::Activation;
use spectrum_reader::configs::{ActivationConfig, ParameterConfig, WeightConfig};
use spectrum_reader::fixed::SCALE;
use spectrum_reader::rnn::RNN;
use spectrum_reader::Fixed;

fn fx(x: f64) -> Fixed {
    Fixed::from_raw((x * (SCALE as f64)).round() as i64)
}

fn fxv(xs: &[f64]) -> Vec<Fixed> {
    xs.iter().map(|&x| fx(x)).collect()
}

#[test]
pub fn predict_test() {
    let params = ParameterConfig::new(1, 10, 2, vec![5]);
    let weights = WeightConfig::new(fx(0.999), fx(1.0), fx(-0.01), fx(0.01));
    let activations = ActivationConfig::new(Activation::identity(), Activation::identity());
    let rnn = RNN::new(&params, weights, &activations);
    let input_seq: Vec<Vec<Fixed>> = vec![
        fxv(&[1.0; 10]),
        fxv(&[0.0; 10]),
        fxv(&[1.0; 10]),
    ];

    let output_seq = rnn.predict(input_seq);

    assert_eq!(output_seq.len(), 3);
    assert_eq!(output_seq[0].len(), 2);
}

#[test]
fn repeated_single_step_prediction_is_identical() {
    let params = ParameterConfig::new(2, 4, 3, vec![5, 4]);
    let weights = WeightConfig::new(fx(-0.2), fx(0.2), fx(-0.2), fx(0.2));
    let activations = ActivationConfig::new(Activation::sigmoid(), Activation::sigmoid());
    let rnn = RNN::new(&params, weights, &activations);

    let v = fxv(&[0.5, -0.25, 1.0, 0.0]);
    let first = rnn.predict(vec![v.clone()]);
    let second = rnn.predict(vec![v.clone()]);
    let third = rnn.predict(vec![v]);

    assert_eq!(first, second);
    assert_eq!(second, third);
}

#[test]
fn recurrent_state_changes_later_outputs() {
    // With weights pinned near one and identity activations, the second
    // timestep sees the first timestep's activations through the
    // recurrence weights, so equal inputs give unequal outputs.
    let params = ParameterConfig::new(1, 2, 1, vec![2]);
    let weights = WeightConfig::new(fx(0.999), fx(1.0), fx(-0.001), fx(0.001));
    let activations = ActivationConfig::new(Activation::identity(), Activation::identity());
    let rnn = RNN::new(&params, weights, &activations);

    let v = fxv(&[1.0, 1.0]);
    let out = rnn.predict(vec![v.clone(), v]);
    assert_eq!(out.len(), 2);
    assert!(out[0] != out[1]);
}

#[test]
fn first_timestep_equals_zero_recurrence_pass() {
    // A network whose recurrence weights are all zero: feeding it a
    // history must give the same output as the first timestep of the
    // same network run with no history at all.
    let mut s = String::new();
    s.push_str("1\n2\n1\n2\n");
    s.push_str(&format!("2,2#{},0,0,{}\n", SCALE, SCALE)); // hidden 0: identity
    s.push_str(&format!("2,1#{},{}\n", SCALE, SCALE)); // hidden 1: sum
    s.push_str("2,2#0,0,0,0\n"); // recurrence: zero
    s.push_str("2#0,0\n");
    s.push_str("1#0\n");
    s.push_str("none\nnone\n");
    let rnn = spectrum_reader::rnn::RNN::from_save(&s.into_bytes()).unwrap();

    let v = fxv(&[1.0, 2.0]);
    // Two equal timesteps: with zero recurrence the outputs must agree,
    // and both must equal the history-free first step.
    let out = rnn.predict(vec![v.clone(), v.clone()]);
    assert_eq!(out[0], out[1]);
    let single = rnn.predict(vec![v]);
    assert_eq!(single[0], out[1]);
    assert_eq!(out[0][0], fx(3.0));
}
