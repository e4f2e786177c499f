//! The save format: round trips, record layout, and malformed input.

use spectrum_reader::activation::Activation;
use spectrum_reader::configs::{ActivationConfig, ParameterConfig, WeightConfig};
use spectrum_reader::fixed::SCALE;
use spectrum_reader::rnn::{LoadError, RNN};
use spectrum_reader::Fixed;

fn fx(x: f64) -> Fixed {
    Fixed::from_raw((x * (SCALE as f64)).round() as i64)
}

fn build_net() -> RNN {
    let params = ParameterConfig::new(1, 10, 2, vec![5]);
    let weights = WeightConfig::new(fx(-0.3), fx(0.3), fx(-0.3), fx(0.3));
    let activations = ActivationConfig::new(Activation::relu(), Activation::sigmoid());
    RNN::new(&params, weights, &activations)
}

/// A tiny save text written by hand: one layer, one input, one output,
/// one hidden unit, every parameter value an exact raw count.
fn tiny_save_text() -> String {
    let mut s = String::new();
    s.push_str("1\n");
    s.push_str("1\n");
    s.push_str("1\n");
    s.push_str("1\n");
    s.push_str(&format!("1,1#{}\n", SCALE)); // hidden weight 0: the value one
    s.push_str(&format!("1,1#{}\n", 2 * SCALE)); // hidden weight 1: the value two
    s.push_str("1,1#0\n"); // recurrence weight 0: zero
    s.push_str("1#0\n"); // bias 0
    s.push_str("1#0\n"); // bias 1
    s.push_str("none\n");
    s.push_str("none\n");
    s
}

#[test]
pub fn construct_test() {
    let rnn = build_net();
    let saved = rnn.to_save();
    assert!(saved.len() > 0);
    assert_eq!(saved[saved.len() - 1], b'\n');
}

#[test]
pub fn save_load_test() {
    let rnn = build_net();
    let saved = rnn.to_save();
    let reloaded = RNN::from_save(&saved).expect("reloading a saved network must succeed");
    assert_eq!(reloaded.to_save(), saved);
}

#[test]
fn round_trip_preserves_shapes_and_values() {
    let params = ParameterConfig::new(2, 3, 2, vec![4, 3]);
    let weights = WeightConfig::new(fx(-0.5), fx(0.5), fx(-0.1), fx(0.1));
    let activations = ActivationConfig::new(Activation::sigmoid(), Activation::identity());
    let rnn = RNN::new(&params, weights, &activations);

    let saved = rnn.to_save();
    let reloaded = RNN::from_save(&saved).unwrap();

    assert_eq!(reloaded.input_dim(), rnn.input_dim());
    assert_eq!(reloaded.output_dim(), rnn.output_dim());
    // Identical parameter values and activation names print identically.
    assert_eq!(reloaded.to_save(), saved);
}

#[test]
fn load_tiny_net_and_predict() {
    let data = tiny_save_text().into_bytes();
    let rnn = RNN::from_save(&data).unwrap();
    // Weights are identity-style: input 3 -> hidden 3*1 -> output 3*2 = 6.
    let out = rnn.predict(vec![vec![fx(3.0)]]);
    assert_eq!(out.len(), 1);
    assert_eq!(out[0][0], fx(6.0));
}

#[test]
fn load_rejects_bad_numeric_token() {
    let data = tiny_save_text().replace("1,1#0", "1,1#zero").into_bytes();
    assert!(matches!(RNN::from_save(&data), Err(LoadError::Malformed)));
}

#[test]
fn load_rejects_wrong_record_count() {
    let mut s = tiny_save_text();
    s.push_str("extra\n");
    assert!(matches!(RNN::from_save(&s.into_bytes()), Err(LoadError::Malformed)));
}

#[test]
fn load_rejects_shape_value_mismatch() {
    let data = tiny_save_text().replace("1,1#0", "1,2#0").into_bytes();
    assert!(matches!(RNN::from_save(&data), Err(LoadError::Malformed)));
}

#[test]
fn load_rejects_shape_not_matching_header() {
    let data = tiny_save_text().replace("1,1#0", "2,2#0,0,0,0").into_bytes();
    assert!(matches!(RNN::from_save(&data), Err(LoadError::Malformed)));
}

#[test]
fn load_rejects_unknown_activation_name() {
    let data = tiny_save_text().replace("none\n", "tanh\n").into_bytes();
    assert!(matches!(RNN::from_save(&data), Err(LoadError::Malformed)));
}

#[test]
fn load_rejects_empty_input() {
    assert!(matches!(RNN::from_save(b""), Err(LoadError::Malformed)));
}

#[test]
fn load_rejects_zero_dimension() {
    let data = tiny_save_text().replacen("1\n", "0\n", 1).into_bytes();
    assert!(matches!(RNN::from_save(&data), Err(LoadError::Malformed)));
}

#[test]
fn save_layout_is_line_oriented() {
    let data = tiny_save_text().into_bytes();
    let rnn = RNN::from_save(&data).unwrap();
    let text = String::from_utf8(rnn.to_save()).unwrap();
    let lines: Vec<&str> = text.lines().collect();
    assert_eq!(lines.len(), 11);
    assert_eq!(lines[0], "1");
    assert_eq!(lines[1], "1");
    assert_eq!(lines[2], "1");
    assert_eq!(lines[3], "1");
    assert_eq!(lines[9], "none");
    assert_eq!(lines[10], "none");
}
