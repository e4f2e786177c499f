//! Training behaviour: the batch trigger, the gradient's first-order
//! meaning, and convergence on a small fixed task.

use spectrum_reader::activation::Activation;
use spectrum_reader::configs::{ActivationConfig, ParameterConfig, WeightConfig};
use spectrum_reader::fixed::SCALE;
use spectrum_reader::rnn::RNN;
use spectrum_reader::update::Update;
use spectrum_reader::Fixed;

fn fx(x: f64) -> Fixed {
    Fixed::from_raw((x * (SCALE as f64)).round() as i64)
}

fn fxv(xs: &[f64]) -> Vec<Fixed> {
    xs.iter().map(|&x| fx(x)).collect()
}

fn tof(f: Fixed) -> f64 {
    f.raw() as f64 / SCALE as f64
}

fn mse(net: &RNN, inputs: &Vec<Vec<Fixed>>, answers: &Vec<Vec<Fixed>>) -> f64 {
    let outputs = net.predict(inputs.clone());
    let mut total = 0.0f64;
    let mut count = 0.0f64;
    for (out, ans) in outputs.iter().zip(answers.iter()) {
        for (o, a) in out.iter().zip(ans.iter()) {
            let d = tof(*o) - tof(*a);
            total += d * d;
            count += 1.0;
        }
    }
    total / count
}

#[test]
fn batch_trigger_fires_after_exactly_max_batch_size_combines() {
    let params = ParameterConfig::new(1, 2, 2, vec![3]);
    let weights = WeightConfig::new(fx(-0.2), fx(0.2), fx(-0.2), fx(0.2));
    let activations = ActivationConfig::new(Activation::relu(), Activation::identity());
    let rnn = RNN::new(&params, weights, &activations);

    let max_batch: usize = 4;
    let mut update = Update::new(2, 2, &vec![3], max_batch);
    let answer = fxv(&[1.0, 1.0]);

    let mut fired = 0;
    for step in 0..max_batch {
        assert!(!update.should_update(), "fired early at step {step}");
        let (output, acts, raws) = rnn.feedforward(fxv(&[1.0, 0.5]), &Vec::new());
        rnn.add_update(&mut update, output, &answer, &acts, &Vec::new(), &raws);
        if update.should_update() {
            fired += 1;
        }
    }
    assert_eq!(fired, 1);
    assert!(update.should_update());

    update.clear();
    assert!(!update.should_update());
    // Every accumulated sum is zero again.
    for w in update.get_hidden_update().iter() {
        let (rows, cols) = w.dim();
        for r in 0..rows {
            for c in 0..cols {
                assert_eq!(w.get(r, c).raw(), 0);
            }
        }
    }
    for b in update.get_biases_update().iter() {
        for i in 0..b.len() {
            assert_eq!(b.get(i).raw(), 0);
        }
    }
}

#[test]
fn combine_accumulates_exact_gradient_sums() {
    // A hand-written net: one hidden unit, weights 1 and 2, zero biases,
    // identity activations. On input 1 with target 3 the output is 2, the
    // output gradient is -(3-2)*1 = -1, the last layer's weight gradient
    // is -1, and backpropagation gives -2 at the first layer.
    let mut s = String::new();
    s.push_str("1\n1\n1\n1\n");
    s.push_str(&format!("1,1#{}\n", SCALE));
    s.push_str(&format!("1,1#{}\n", 2 * SCALE));
    s.push_str("1,1#0\n");
    s.push_str("1#0\n1#0\n");
    s.push_str("none\nnone\n");
    let rnn = RNN::from_save(&s.into_bytes()).unwrap();

    let mut update = Update::new(1, 1, &vec![1], 10);
    let answer = fxv(&[3.0]);
    let empty: Vec<Vec<Fixed>> = Vec::new();

    for round in 1..=2i64 {
        let (output, acts, raws) = rnn.feedforward(fxv(&[1.0]), &empty);
        assert_eq!(output, fxv(&[2.0]));
        rnn.add_update(&mut update, output, &answer, &acts, &empty, &raws);

        let hidden = update.get_hidden_update();
        assert_eq!(hidden[0].get(0, 0), fx(-2.0 * round as f64));
        assert_eq!(hidden[1].get(0, 0), fx(-1.0 * round as f64));
        let biases = update.get_biases_update();
        assert_eq!(biases[0].get(0), fx(-2.0 * round as f64));
        assert_eq!(biases[1].get(0), fx(-1.0 * round as f64));
        // No previous timestep: the recurrence sum stays zero.
        assert_eq!(update.get_recurrence_update()[0].get(0, 0), fx(0.0));
    }
}

#[test]
fn gradient_sign_check() {
    // A one-hidden-layer network with identity activations, written out
    // by hand so every parameter is exact. Perturbing one weight element
    // by +epsilon must change the squared-error loss by about
    // epsilon * analytic_gradient, with the same sign.
    let base = |w00: i64| -> Vec<u8> {
        let mut s = String::new();
        s.push_str("1\n2\n2\n2\n");
        s.push_str(&format!("2,2#{},0,0,{}\n", SCALE, SCALE)); // hidden 0: identity
        s.push_str(&format!("2,2#{},0,0,{}\n", w00, SCALE)); // hidden 1
        s.push_str("2,2#0,0,0,0\n");
        s.push_str("2#0,0\n");
        s.push_str("2#0,0\n");
        s.push_str("none\nnone\n");
        s.into_bytes()
    };

    let input = fxv(&[1.0, 2.0]);
    let target = fxv(&[2.0, 2.0]);

    let loss = |raw_w00: i64| -> f64 {
        let net = RNN::from_save(&base(raw_w00)).unwrap();
        let out = net.predict(vec![input.clone()]);
        let d0 = tof(out[0][0]) - tof(target[0]);
        let d1 = tof(out[0][1]) - tof(target[1]);
        0.5 * (d0 * d0 + d1 * d1)
    };

    // At w00 = 1: output is (1, 2), residual (1, 0), and the analytic
    // gradient dL/dw00 = -(target - output) * a = -1 * 1 = -1.
    let analytic = -1.0f64;
    let epsilon = 0.5f64;
    let before = loss(SCALE);
    let after = loss(SCALE + (epsilon * SCALE as f64) as i64);
    let delta = after - before;

    assert!(delta < 0.0, "loss must fall when moving against the gradient");
    let first_order = epsilon * analytic;
    assert!(
        (delta - first_order).abs() <= 0.6 * epsilon * epsilon,
        "delta {delta} vs first-order estimate {first_order}"
    );
}

#[test]
pub fn convergence_test() {
    let params = ParameterConfig::new(2, 5, 3, vec![6, 4]);
    let weights = WeightConfig::new(fx(-0.2), fx(0.2), fx(-0.2), fx(0.2));
    let activations = ActivationConfig::new(Activation::identity(), Activation::identity());
    let mut rnn = RNN::new(&params, weights, &activations);

    let input_seq: Vec<Vec<Fixed>> = vec![
        fxv(&[1.0, 1.0, 0.0, 1.0, 1.0]),
        fxv(&[1.0, 0.0, 0.0, 1.0, 1.0]),
        fxv(&[1.0, 1.0, 0.0, 1.0, 0.0]),
        fxv(&[1.0, 1.0, 1.0, 0.0, 1.0]),
        fxv(&[1.0, 1.0, 0.0, 0.0, 0.0]),
    ];

    let answer_seq: Vec<Vec<Fixed>> = vec![
        fxv(&[1.0, 0.0, 1.0]),
        fxv(&[1.0, 0.0, 1.0]),
        fxv(&[1.0, 0.0, 1.0]),
        fxv(&[1.0, 1.0, 1.0]),
        fxv(&[1.0, 0.0, 1.0]),
    ];

    let before = mse(&rnn, &input_seq, &answer_seq);
    for _i in 0..2000 {
        rnn.predict_and_update(input_seq.clone(), &answer_seq, 1);
    }
    let after = mse(&rnn, &input_seq, &answer_seq);

    println!("mse before {before} after {after}");
    assert!(after < before);
}

#[test]
fn convergence_scenario() {
    // The literal scenario: one hidden layer of four units, five inputs,
    // three outputs, rectifier hidden activation, identity output
    // activation, one thousand training passes with batch size five, and
    // at least an order of magnitude off the untrained error.
    let params = ParameterConfig::new(1, 5, 3, vec![4]);
    let weights = WeightConfig::new(fx(-0.2), fx(0.2), fx(-0.2), fx(0.2));
    let activations = ActivationConfig::new(Activation::relu(), Activation::identity());
    let mut rnn = RNN::new(&params, weights, &activations);

    let input_seq: Vec<Vec<Fixed>> = vec![
        fxv(&[1.0, 1.0, 0.0, 1.0, 1.0]),
        fxv(&[1.0, 0.0, 0.0, 1.0, 1.0]),
        fxv(&[1.0, 1.0, 0.0, 1.0, 0.0]),
        fxv(&[1.0, 1.0, 1.0, 0.0, 1.0]),
        fxv(&[1.0, 1.0, 0.0, 0.0, 0.0]),
    ];

    let answer_seq: Vec<Vec<Fixed>> = vec![
        fxv(&[1.0, 0.0, 1.0]),
        fxv(&[1.0, 0.0, 1.0]),
        fxv(&[1.0, 0.0, 1.0]),
        fxv(&[1.0, 1.0, 1.0]),
        fxv(&[1.0, 0.0, 1.0]),
    ];

    let before = mse(&rnn, &input_seq, &answer_seq);
    for _i in 0..1000 {
        rnn.predict_and_update(input_seq.clone(), &answer_seq, 5);
    }
    let after = mse(&rnn, &input_seq, &answer_seq);

    println!("mse before {before} after {after}");
    assert!(
        after * 10.0 <= before,
        "error must fall by an order of magnitude: before {before}, after {after}"
    );
}
