//! The non-recurrent network: training on small function-fitting tasks
//! and the split first-layer / remaining-layers passes.

use spectrum_reader::activation::Activation;
use spectrum_reader::configs::{ActivationConfig, ParameterConfig, WeightConfig};
use spectrum_reader::fixed::SCALE;
use spectrum_reader::nn::NN;
use spectrum_reader::rnn::RNN;
use spectrum_reader::update::Update;
use spectrum_reader::Fixed;

fn fx(x: f64) -> Fixed {
    Fixed::from_raw((x * (SCALE as f64)).round() as i64)
}

fn fxv(xs: &[f64]) -> Vec<Fixed> {
    xs.iter().map(|&x| fx(x)).collect()
}

fn tof(f: Fixed) -> f64 {
    f.raw() as f64 / SCALE as f64
}

#[test]
fn linear_test() {
    let params = ParameterConfig::new(1, 1, 1, vec![1]);
    let weights = WeightConfig::new(fx(0.03), fx(0.07), fx(0.000), fx(0.001));
    let activations = ActivationConfig::new(Activation::relu(), Activation::identity());
    let mut nn = NN::new(&params, weights, &activations);

    let input_seq: Vec<Vec<Fixed>> = vec![
        fxv(&[1.0]),
        fxv(&[2.0]),
        fxv(&[3.0]),
        fxv(&[4.0]),
        fxv(&[5.0]),
    ];

    let answer_seq: Vec<Vec<Fixed>> = vec![
        fxv(&[2.0]),
        fxv(&[4.0]),
        fxv(&[6.0]),
        fxv(&[8.0]),
        fxv(&[10.0]),
    ];

    for _i in 0..1000 {
        nn.predict_and_update(input_seq.clone(), &answer_seq, 5);
    }

    let test_seq: Vec<Vec<Fixed>> = vec![
        fxv(&[1.5]),
        fxv(&[2.0]),
        fxv(&[2.5]),
        fxv(&[3.0]),
        fxv(&[3.5]),
    ];

    let ans = nn.predict(test_seq);

    println!("{:?}", ans.iter().map(|v| tof(v[0])).collect::<Vec<f64>>());
    // The map x -> 2x should be close after a thousand passes.
    assert!((tof(ans[1][0]) - 4.0).abs() < 0.5);
}

#[test]
fn quadratic_test() {
    let params = ParameterConfig::new(1, 1, 1, vec![4]);
    let weights = WeightConfig::new(fx(0.01), fx(0.05), fx(0.000), fx(0.001));
    let activations = ActivationConfig::new(Activation::relu(), Activation::identity());
    let mut rnn = RNN::new(&params, weights, &activations);

    let input_seq: Vec<Vec<Fixed>> = vec![
        fxv(&[1.0]),
        fxv(&[2.0]),
        fxv(&[3.0]),
        fxv(&[4.0]),
        fxv(&[5.0]),
    ];

    let answer_seq: Vec<Vec<Fixed>> = vec![
        fxv(&[1.0]),
        fxv(&[4.0]),
        fxv(&[9.0]),
        fxv(&[16.0]),
        fxv(&[25.0]),
    ];

    for _i in 0..1000 {
        rnn.predict_and_update(input_seq.clone(), &answer_seq, 5);
    }

    let test_seq: Vec<Vec<Fixed>> = vec![
        fxv(&[1.5]),
        fxv(&[2.5]),
        fxv(&[3.5]),
        fxv(&[4.5]),
        fxv(&[5.5]),
    ];

    let ans = rnn.predict(test_seq);
    println!("{:?}", ans.iter().map(|v| tof(v[0])).collect::<Vec<f64>>());
    assert_eq!(ans.len(), 5);
}

#[test]
fn nn_update_test() {
    let params = ParameterConfig::new(2, 2, 2, vec![3, 3]);
    let weights = WeightConfig::new(fx(0.999), fx(1.0), fx(-0.01), fx(0.01));
    let activations = ActivationConfig::new(Activation::relu(), Activation::identity());
    let nn = NN::new(&params, weights, &activations);

    let mut update = Update::new(2, 2, &vec![3, 3], 4);

    let sample = fxv(&[0.0, 0.0]);

    let (output, acts, raw_nodes) = nn.feedforward(sample);

    println!("Finished feedforward prediction");

    let answer = fxv(&[1.0, 1.0]);

    nn.add_update(&mut update, output, &answer, &acts, &raw_nodes);

    assert!(!update.should_update());
}

#[test]
fn split_passes_compose_to_the_full_pass() {
    let params = ParameterConfig::new(2, 3, 2, vec![4, 3]);
    let weights = WeightConfig::new(fx(-0.3), fx(0.3), fx(-0.1), fx(0.1));
    let activations = ActivationConfig::new(Activation::sigmoid(), Activation::identity());
    let nn = NN::new(&params, weights, &activations);

    let v = fxv(&[0.5, -1.0, 0.25]);
    let whole = nn.predict(vec![v.clone()]);
    let first = nn.predict_first_layer(vec![v]);
    let rest = nn.first_layer_input(first);
    assert_eq!(whole, rest);
}
