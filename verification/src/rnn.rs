//! The recurrent network: multi-layer inference with per-layer temporal
//! recurrence, a manually derived backpropagation step with a depth-one
//! recurrent gradient, batched updates, and a line-oriented save format.
//!
//! The recurrent gradient deliberately reaches exactly one timestep back:
//! each timestep's gradient uses the immediately preceding timestep's
//! activations and nothing older. This depth-one truncation is part of the
//! design, not an approximation to be deepened.

use vstd::prelude::*;

verus! {

use crate::activation::{Activation, act_from_name, name_text};
use crate::computations::{
    vec_mat, vec_add_s, map_act, outer, zero_mat, output_grad_s, backprop_s, vec_mat_mul,
    vec_add, apply_act, copy_vec, compute_output_grad, compute_hidden_grad, compute_bias_grad,
    compute_recurrence_grad, compute_backpropogated_grad,
};
use crate::configs::{ParameterConfig, WeightConfig, ActivationConfig};
use crate::fixed::Fixed;
use crate::params::{
    Weight, Bias, WeightV, BiasV, wf_weight, wf_bias, vals, vecs_view, weights_view, biases_view,
    stepped_vals, weight_line, bias_line, parse_weight_line, parse_bias_line,
};
use crate::text::{
    digits_of, lines_text, joined_text, split_on, parse_usize_s, contains_byte, split_bytes,
    parse_usize, push_digits, lemma_nat_text, lemma_digits_of, lemma_split_lines,
    lemma_split_joined, lemma_joined_free, lemma_joined_push, lemma_lines_push, append_line,
};
use crate::update::{
    Update, UpdateV, units_ints, dim_in, dim_out, wf_topology, zero_bias, same_shape_w,
    zeroed_w, zeroed_b,
};

/// The raw representation of the fixed learning rate (about 0.001).
pub const LEARNING_RATE_RAW: i64 = 1048;

/// The mathematical content of a recurrent network: its topology, its
/// parameter arrays, and its two activations.
pub ghost struct NetV {
    pub layers: int,
    pub input_size: int,
    pub output_size: int,
    pub units: Seq<int>,
    pub hidden: Seq<WeightV>,
    pub recurrence: Seq<WeightV>,
    pub biases: Seq<BiasV>,
    pub hidden_activation: Activation,
    pub end_activation: Activation,
}

/// The shape invariant of a network: `hidden[i]` is `(dim_in_i, dim_out_i)`
/// where the chain of dimensions runs from the input size through the
/// per-layer unit counts to the output size; `recurrence[i]` is square on
/// layer `i`'s units; `biases[i]` matches layer `i`'s output width.
pub open spec fn wf_net(n: NetV) -> bool {
    &&& wf_topology(n.input_size, n.output_size, n.units)
    &&& n.layers == n.units.len()
    &&& n.hidden.len() == n.layers + 1
    &&& n.recurrence.len() == n.layers
    &&& n.biases.len() == n.layers + 1
    &&& forall|i: int|
        0 <= i <= n.layers ==> {
            &&& (#[trigger] n.hidden[i]).rows == dim_in(n.input_size, n.units, i)
            &&& n.hidden[i].cols == dim_out(n.output_size, n.units, i)
            &&& wf_weight(n.hidden[i])
        }
    &&& forall|i: int|
        0 <= i < n.layers ==> {
            &&& (#[trigger] n.recurrence[i]).rows == n.units[i]
            &&& n.recurrence[i].cols == n.units[i]
            &&& wf_weight(n.recurrence[i])
        }
    &&& forall|i: int|
        0 <= i <= n.layers ==> {
            &&& (#[trigger] n.biases[i]).vals.len() == dim_out(n.output_size, n.units, i)
            &&& wf_bias(n.biases[i])
        }
}

/// A well-shaped activation record: the input vector followed by each
/// layer's post-activation.
pub open spec fn wf_acts(n: NetV, acts: Seq<Seq<int>>) -> bool {
    &&& acts.len() == n.layers + 1
    &&& acts[0].len() == n.input_size
    &&& forall|i: int| 1 <= i <= n.layers ==> (#[trigger] acts[i]).len() == n.units[i - 1]
}

/// A recurrent history: either absent (the first timestep) or a well-shaped
/// activation record from the previous timestep.
pub open spec fn prev_ok(n: NetV, prev: Seq<Seq<int>>) -> bool {
    prev.len() == 0 || wf_acts(n, prev)
}

/// The recurrent term folded into a layer's pre-activation: present only
/// when the previous timestep recorded an activation for that layer.
pub open spec fn with_recurrence(n: NetV, prev: Seq<Seq<int>>, base: Seq<int>, i: int) -> Seq<int> {
    if i + 1 < prev.len() {
        vec_add_s(base, vec_mat(prev[i + 1], n.recurrence[i]))
    } else {
        base
    }
}

/// Layer `i`'s pre-activation from its input activation `a`: the weighted
/// input, plus the recurrent term if one exists, plus the bias.
pub open spec fn layer_pre(n: NetV, a: Seq<int>, prev: Seq<Seq<int>>, i: int) -> Seq<int> {
    vec_add_s(with_recurrence(n, prev, vec_mat(a, n.hidden[i]), i), n.biases[i].vals)
}

/// The pre-activation of layer `i` on input `v` with recurrent history
/// `prev`.
pub open spec fn pre_at(n: NetV, v: Seq<int>, prev: Seq<Seq<int>>, i: int) -> Seq<int>
    decreases i,
{
    if i <= 0 {
        layer_pre(n, v, prev, 0)
    } else {
        layer_pre(n, map_act(n.hidden_activation, pre_at(n, v, prev, i - 1)), prev, i)
    }
}

/// The activation entering layer `i`: the input itself for the first
/// layer, else the previous layer's post-activation.
pub open spec fn act_at(n: NetV, v: Seq<int>, prev: Seq<Seq<int>>, i: int) -> Seq<int> {
    if i <= 0 {
        v
    } else {
        map_act(n.hidden_activation, pre_at(n, v, prev, i - 1))
    }
}

/// The network's output on input `v` with recurrent history `prev`.
pub open spec fn output_of(n: NetV, v: Seq<int>, prev: Seq<Seq<int>>) -> Seq<int> {
    map_act(n.end_activation, pre_at(n, v, prev, n.layers))
}

/// The activation record of one timestep: the input and each layer's
/// post-activation, the next timestep's recurrent history.
pub open spec fn acts_list(n: NetV, v: Seq<int>, prev: Seq<Seq<int>>) -> Seq<Seq<int>> {
    Seq::new((n.layers + 1) as nat, |i: int| act_at(n, v, prev, i))
}

/// The pre-activation record of one timestep: the input and each layer's
/// pre-activation, output layer included.
pub open spec fn raws_list(n: NetV, v: Seq<int>, prev: Seq<Seq<int>>) -> Seq<Seq<int>> {
    Seq::new(
        (n.layers + 2) as nat,
        |i: int|
            if i == 0 {
                v
            } else {
                pre_at(n, v, prev, i - 1)
            },
    )
}

/// Pre- and post-activations have the widths the topology assigns their
/// layers.
pub proof fn lemma_forward_lens(n: NetV, v: Seq<int>, prev: Seq<Seq<int>>, i: int)
    requires
        wf_net(n),
        v.len() == n.input_size,
        0 <= i <= n.layers,
    ensures
        pre_at(n, v, prev, i).len() == dim_out(n.output_size, n.units, i),
        act_at(n, v, prev, i).len() == dim_in(n.input_size, n.units, i),
    decreases i,
{
    if i > 0 {
        lemma_forward_lens(n, v, prev, i - 1);
    }
}

/// The recurrent history after `t` timesteps of a sequence.
pub open spec fn prev_after(n: NetV, inputs: Seq<Seq<int>>, t: int) -> Seq<Seq<int>>
    decreases t,
{
    if t <= 0 {
        Seq::empty()
    } else {
        acts_list(n, inputs[t - 1], prev_after(n, inputs, t - 1))
    }
}

/// The outputs of a whole input sequence, each timestep fed the previous
/// timestep's activations as recurrent history.
pub open spec fn predict_outputs(n: NetV, inputs: Seq<Seq<int>>) -> Seq<Seq<int>> {
    Seq::new(inputs.len(), |t: int| output_of(n, inputs[t], prev_after(n, inputs, t)))
}

/// The three per-layer gradient lists of one timestep.
pub ghost struct GradsV {
    pub hidden: Seq<WeightV>,
    pub recurrence: Seq<WeightV>,
    pub biases: Seq<BiasV>,
}

/// A well-shaped pre-activation record: the input followed by each
/// layer's pre-activation, output layer included.
pub open spec fn raws_ok(n: NetV, raws: Seq<Seq<int>>) -> bool {
    &&& raws.len() == n.layers + 2
    &&& raws[0].len() == n.input_size
    &&& forall|k: int|
        1 <= k <= n.layers + 1 ==> (#[trigger] raws[k]).len() == dim_out(
            n.output_size,
            n.units,
            k - 1,
        )
}

/// The gradient flowing into layer `i`: at the output layer the loss
/// gradient itself, below it the backpropagated gradient of the layer
/// above. Through the recurrent connection no gradient flows at all; the
/// chain runs only down the layers of the one current timestep.
pub open spec fn g_at(n: NetV, raws: Seq<Seq<int>>, gout: Seq<int>, i: int) -> Seq<int>
    decreases n.layers - i,
{
    if i >= n.layers {
        gout
    } else {
        backprop_s(n.hidden[i + 1], n.hidden_activation, g_at(n, raws, gout, i + 1), raws[i + 1])
    }
}

/// The per-layer gradients of one timestep, from its cached output,
/// activations, previous-timestep activations, and pre-activations.
pub open spec fn step_grads(
    n: NetV,
    answer: Seq<int>,
    output: Seq<int>,
    acts: Seq<Seq<int>>,
    prev: Seq<Seq<int>>,
    raws: Seq<Seq<int>>,
) -> GradsV {
    let gout = output_grad_s(output, answer, raws[n.layers + 1], n.end_activation);
    GradsV {
        hidden: Seq::new((n.layers + 1) as nat, |i: int| outer(acts[i], g_at(n, raws, gout, i))),
        recurrence: Seq::new(
            n.layers as nat,
            |i: int|
                if i + 1 < prev.len() {
                    outer(prev[i + 1], g_at(n, raws, gout, i))
                } else {
                    zero_mat(n.units[i], n.units[i])
                },
        ),
        biases: Seq::new(
            (n.layers + 1) as nat,
            |i: int| BiasV { vals: g_at(n, raws, gout, i) },
        ),
    }
}

/// An accumulator shaped exactly like the network's parameter arrays.
pub open spec fn update_matches(n: NetV, u: UpdateV) -> bool {
    &&& u.hidden.len() == n.layers + 1
    &&& u.recurrence.len() == n.layers
    &&& u.biases.len() == n.layers + 1
    &&& forall|i: int|
        0 <= i <= n.layers ==> {
            &&& (#[trigger] u.hidden[i]).rows == n.hidden[i].rows
            &&& u.hidden[i].cols == n.hidden[i].cols
            &&& u.hidden[i].vals.len() == n.hidden[i].vals.len()
        }
    &&& forall|i: int|
        0 <= i < n.layers ==> {
            &&& (#[trigger] u.recurrence[i]).rows == n.recurrence[i].rows
            &&& u.recurrence[i].cols == n.recurrence[i].cols
            &&& u.recurrence[i].vals.len() == n.recurrence[i].vals.len()
        }
    &&& forall|i: int|
        0 <= i <= n.layers ==> (#[trigger] u.biases[i]).vals.len() == n.biases[i].vals.len()
}

/// An accumulator with one more timestep's gradients added in.
pub open spec fn combined(u: UpdateV, g: GradsV) -> UpdateV {
    UpdateV {
        batch_count: u.batch_count + 1,
        max_batch_size: u.max_batch_size,
        hidden: Seq::new(
            u.hidden.len(),
            |i: int| WeightV {
                rows: u.hidden[i].rows,
                cols: u.hidden[i].cols,
                vals: vec_add_s(u.hidden[i].vals, g.hidden[i].vals),
            },
        ),
        recurrence: Seq::new(
            u.recurrence.len(),
            |i: int| WeightV {
                rows: u.recurrence[i].rows,
                cols: u.recurrence[i].cols,
                vals: vec_add_s(u.recurrence[i].vals, g.recurrence[i].vals),
            },
        ),
        biases: Seq::new(
            u.biases.len(),
            |i: int| BiasV { vals: vec_add_s(u.biases[i].vals, g.biases[i].vals) },
        ),
    }
}

/// An accumulator after a batch is applied: sums zeroed, counter reset.
pub open spec fn cleared(u: UpdateV) -> UpdateV {
    UpdateV {
        batch_count: 0,
        max_batch_size: u.max_batch_size,
        hidden: Seq::new(u.hidden.len(), |i: int| zeroed_w(u.hidden[i])),
        recurrence: Seq::new(u.recurrence.len(), |i: int| zeroed_w(u.recurrence[i])),
        biases: Seq::new(u.biases.len(), |i: int| zeroed_b(u.biases[i])),
    }
}

/// A fresh accumulator for a network's topology.
pub open spec fn fresh_update(n: NetV, batch: int) -> UpdateV {
    UpdateV {
        batch_count: 0,
        max_batch_size: batch,
        hidden: Seq::new(
            (n.layers + 1) as nat,
            |i: int| zero_mat(dim_in(n.input_size, n.units, i), dim_out(n.output_size, n.units, i)),
        ),
        recurrence: Seq::new(n.layers as nat, |i: int| zero_mat(n.units[i], n.units[i])),
        biases: Seq::new(
            (n.layers + 1) as nat,
            |i: int| zero_bias(dim_out(n.output_size, n.units, i)),
        ),
    }
}

/// A network with an accumulated batch applied: every parameter moves
/// against its summed gradient, scaled by the learning rate alone.
pub open spec fn applied_net(n: NetV, u: UpdateV, alpha: int) -> NetV {
    NetV {
        layers: n.layers,
        input_size: n.input_size,
        output_size: n.output_size,
        units: n.units,
        hidden: Seq::new(
            n.hidden.len(),
            |i: int| WeightV {
                rows: n.hidden[i].rows,
                cols: n.hidden[i].cols,
                vals: stepped_vals(n.hidden[i].vals, u.hidden[i].vals, alpha),
            },
        ),
        recurrence: Seq::new(
            n.recurrence.len(),
            |i: int| WeightV {
                rows: n.recurrence[i].rows,
                cols: n.recurrence[i].cols,
                vals: stepped_vals(n.recurrence[i].vals, u.recurrence[i].vals, alpha),
            },
        ),
        biases: Seq::new(
            n.biases.len(),
            |i: int| BiasV { vals: stepped_vals(n.biases[i].vals, u.biases[i].vals, alpha) },
        ),
        hidden_activation: n.hidden_activation,
        end_activation: n.end_activation,
    }
}

/// The training state after some timesteps: the current parameters, the
/// running accumulator, and the recurrent history.
pub ghost struct TrainState {
    pub net: NetV,
    pub upd: UpdateV,
    pub prev: Seq<Seq<int>>,
}

/// One training timestep: run the forward pass, derive the gradients,
/// add them to the accumulator, and apply the batch if it is full. The
/// timestep's activations become the next timestep's recurrent history.
pub open spec fn train_step(s: TrainState, v: Seq<int>, answer: Seq<int>) -> TrainState {
    let n = s.net;
    let acts = acts_list(n, v, s.prev);
    let raws = raws_list(n, v, s.prev);
    let out = output_of(n, v, s.prev);
    let g = step_grads(n, answer, out, acts, s.prev, raws);
    let u1 = combined(s.upd, g);
    if u1.batch_count >= u1.max_batch_size {
        TrainState {
            net: applied_net(n, u1, LEARNING_RATE_RAW as int),
            upd: cleared(u1),
            prev: acts,
        }
    } else {
        TrainState { net: n, upd: u1, prev: acts }
    }
}

/// The training state after the first `t` timesteps of a sequence.
pub open spec fn train_states(
    n0: NetV,
    inputs: Seq<Seq<int>>,
    answers: Seq<Seq<int>>,
    batch: int,
    t: int,
) -> TrainState
    decreases t,
{
    if t <= 0 {
        TrainState { net: n0, upd: fresh_update(n0, batch), prev: Seq::empty() }
    } else {
        train_step(train_states(n0, inputs, answers, batch, t - 1), inputs[t - 1], answers[t - 1])
    }
}

/// The gradient entering each layer has that layer's output width.
pub proof fn lemma_g_len(n: NetV, raws: Seq<Seq<int>>, gout: Seq<int>, i: int)
    requires
        wf_net(n),
        gout.len() == n.output_size,
        0 <= i <= n.layers,
    ensures
        g_at(n, raws, gout, i).len() == dim_out(n.output_size, n.units, i),
    decreases n.layers - i,
{
    if i < n.layers {
        lemma_g_len(n, raws, gout, i + 1);
    }
}

/// Applying a batch preserves the network's well-formedness and topology.
pub proof fn lemma_applied_wf(n: NetV, u: UpdateV, alpha: int)
    requires
        wf_net(n),
        update_matches(n, u),
    ensures
        wf_net(applied_net(n, u, alpha)),
        update_matches(applied_net(n, u, alpha), u),
{
    let a = applied_net(n, u, alpha);
    assert forall|i: int| 0 <= i <= a.layers implies {
        &&& (#[trigger] a.hidden[i]).rows == dim_in(a.input_size, a.units, i)
        &&& a.hidden[i].cols == dim_out(a.output_size, a.units, i)
        &&& wf_weight(a.hidden[i])
    } by {
        assert(n.hidden[i].rows == dim_in(n.input_size, n.units, i));
        assert(forall|k: int|
            0 <= k < a.hidden[i].vals.len() ==> i64::MIN <= #[trigger] a.hidden[i].vals[k]
                <= i64::MAX);
    }
    assert forall|i: int| 0 <= i < a.layers implies {
        &&& (#[trigger] a.recurrence[i]).rows == a.units[i]
        &&& a.recurrence[i].cols == a.units[i]
        &&& wf_weight(a.recurrence[i])
    } by {
        assert(forall|k: int|
            0 <= k < a.recurrence[i].vals.len() ==> i64::MIN <= #[trigger] a.recurrence[i].vals[k]
                <= i64::MAX);
    }
    assert forall|i: int| 0 <= i <= a.layers implies {
        &&& (#[trigger] a.biases[i]).vals.len() == dim_out(a.output_size, a.units, i)
        &&& wf_bias(a.biases[i])
    } by {
        assert(forall|k: int|
            0 <= k < a.biases[i].vals.len() ==> i64::MIN <= #[trigger] a.biases[i].vals[k]
                <= i64::MAX);
    }
}

/// A load failure: the save data is malformed, or — for callers loading
/// from a file — the file does not exist. The missing-file case is the
/// engine's one recoverable error: a caller may fall back to fresh random
/// initialization.
#[derive(Clone, Copy, Debug, PartialEq, Eq, Structural)]
pub enum LoadError {
    /// The save file does not exist.
    FileMissing,
    /// The save data is malformed: a bad numeric token, a wrong record
    /// count, a shape not matching its values, or an unknown activation
    /// name.
    Malformed,
}

/// The per-layer unit counts record: comma-separated decimal counts.
pub open spec fn units_line(units: Seq<int>) -> Seq<u8> {
    joined_text(units.map_values(|u: int| digits_of(u as nat)), 44)
}

/// The save records of a network, in order: layer count, input size,
/// output size, unit counts, hidden-weight records, recurrence-weight
/// records, bias records, and the two activation names.
pub open spec fn save_lines(n: NetV) -> Seq<Seq<u8>> {
    seq![
        digits_of(n.layers as nat),
        digits_of(n.input_size as nat),
        digits_of(n.output_size as nat),
        units_line(n.units),
    ] + Seq::new((n.layers + 1) as nat, |i: int| weight_line(n.hidden[i])) + Seq::new(
        n.layers as nat,
        |i: int| weight_line(n.recurrence[i]),
    ) + Seq::new((n.layers + 1) as nat, |i: int| bias_line(n.biases[i])) + seq![
        name_text(n.hidden_activation),
        name_text(n.end_activation),
    ]
}

/// The save text of a network: its records, each on its own line.
pub open spec fn save_text(n: NetV) -> Seq<u8> {
    lines_text(save_lines(n))
}

/// What a unit counts record parses to, if anything.
pub open spec fn parse_units(s: Seq<u8>) -> Option<Seq<int>> {
    let fields = split_on(s, 44);
    if forall|i: int| 0 <= i < fields.len() ==> parse_usize_s(#[trigger] fields[i]) is Some {
        Some(Seq::new(fields.len(), |i: int| parse_usize_s(fields[i]).unwrap() as int))
    } else {
        None
    }
}

/// What save data parses to, if anything: the records in order, every
/// numeric field valid, and every declared shape consistent with the
/// topology the header declares.
pub open spec fn parse_save(data: Seq<u8>) -> Option<NetV> {
    let parts = split_on(data, 10);
    if parts.len() < 4 || parse_usize_s(parts[0]) is None {
        None
    } else {
        let layers = parse_usize_s(parts[0]).unwrap() as int;
        if parts.len() != 3 * layers + 9 || parts[3 * layers + 8].len() != 0 {
            None
        } else if parse_usize_s(parts[1]) is None || parse_usize_s(parts[2]) is None
            || parse_units(parts[3]) is None {
            None
        } else {
            let input_size = parse_usize_s(parts[1]).unwrap() as int;
            let output_size = parse_usize_s(parts[2]).unwrap() as int;
            let units = parse_units(parts[3]).unwrap();
            if !(forall|i: int|
                0 <= i <= layers ==> parse_weight_line(#[trigger] parts[4 + i]) is Some) {
                None
            } else if !(forall|i: int|
                0 <= i < layers ==> parse_weight_line(#[trigger] parts[5 + layers + i]) is Some) {
                None
            } else if !(forall|i: int|
                0 <= i <= layers ==> parse_bias_line(#[trigger] parts[5 + 2 * layers + i])
                    is Some) {
                None
            } else if act_from_name(parts[3 * layers + 6]) is None || act_from_name(
                parts[3 * layers + 7],
            ) is None {
                None
            } else {
                let candidate = NetV {
                    layers,
                    input_size,
                    output_size,
                    units,
                    hidden: Seq::new(
                        (layers + 1) as nat,
                        |i: int| parse_weight_line(parts[4 + i]).unwrap(),
                    ),
                    recurrence: Seq::new(
                        layers as nat,
                        |i: int| parse_weight_line(parts[5 + layers + i]).unwrap(),
                    ),
                    biases: Seq::new(
                        (layers + 1) as nat,
                        |i: int| parse_bias_line(parts[5 + 2 * layers + i]).unwrap(),
                    ),
                    hidden_activation: act_from_name(parts[3 * layers + 6]).unwrap(),
                    end_activation: act_from_name(parts[3 * layers + 7]).unwrap(),
                };
                if wf_net(candidate) {
                    Some(candidate)
                } else {
                    None
                }
            }
        }
    }
}

/// No activation name contains a newline byte.
proof fn lemma_name_free(a: Activation)
    ensures
        !contains_byte(name_text(a), 10),
{
    let s = name_text(a);
    match a {
        Activation::Identity => {
            assert(forall|i: int| 0 <= i < s.len() ==> s[i] != 10);
        },
        Activation::Relu => {
            assert(forall|i: int| 0 <= i < s.len() ==> s[i] != 10);
        },
        Activation::Sigmoid => {
            assert(forall|i: int| 0 <= i < s.len() ==> s[i] != 10);
        },
    }
}

/// The unit counts record contains no newline byte, and parses back to
/// the counts it prints.
proof fn lemma_units_line(units: Seq<int>)
    requires
        units.len() >= 1,
        forall|i: int| 0 <= i < units.len() ==> 0 <= #[trigger] units[i] <= usize::MAX,
    ensures
        !contains_byte(units_line(units), 10),
        parse_units(units_line(units)) == Some(units),
{
    let fields = units.map_values(|u: int| digits_of(u as nat));
    assert forall|i: int| 0 <= i < fields.len() implies !contains_byte(#[trigger] fields[i], 10)
        && !contains_byte(fields[i], 44) by {
        lemma_digits_of(units[i] as nat);
    }
    lemma_joined_free(fields, 44, 10);
    lemma_split_joined(fields, 44);
    assert(split_on(units_line(units), 44) =~~= fields);
    assert(usize::MAX as nat <= u64::MAX as nat);
    assert forall|i: int| 0 <= i < fields.len() implies parse_usize_s(#[trigger] fields[i])
        == Some(units[i] as usize) by {
        lemma_nat_text(units[i] as nat);
    }
    assert(parse_units(units_line(units)).unwrap() =~= units);
}

/// Parsing printed save data recovers the network: the round trip from a
/// well-formed network through its save text and back is the identity.
pub proof fn lemma_save_round_trip(n: NetV)
    requires
        wf_net(n),
    ensures
        parse_save(save_text(n)) == Some(n),
{
    let lines = save_lines(n);
    let layers = n.layers;
    assert(lines.len() == 3 * layers + 8);
    assert forall|i: int| 0 <= i < lines.len() implies !contains_byte(#[trigger] lines[i], 10) by {
        lemma_digits_of(n.layers as nat);
        lemma_digits_of(n.input_size as nat);
        lemma_digits_of(n.output_size as nat);
        lemma_units_line(n.units);
        lemma_name_free(n.hidden_activation);
        lemma_name_free(n.end_activation);
        if 4 <= i < 5 + layers {
            crate::params::lemma_weight_line_free(n.hidden[i - 4]);
        }
        if 5 + layers <= i < 5 + 2 * layers {
            crate::params::lemma_weight_line_free(n.recurrence[i - 5 - layers]);
        }
        if 5 + 2 * layers <= i < 6 + 3 * layers {
            crate::params::lemma_bias_line_free(n.biases[i - 5 - 2 * layers]);
        }
    }
    lemma_split_lines(lines);
    let parts = split_on(save_text(n), 10);
    assert(parts =~~= lines + seq![Seq::<u8>::empty()]);
    assert(parts.len() == 3 * layers + 9);
    assert(usize::MAX as nat <= u64::MAX as nat);
    lemma_nat_text(n.layers as nat);
    assert(parts[0] == digits_of(n.layers as nat));
    assert(parse_usize_s(parts[0]).unwrap() as int == layers);
    lemma_nat_text(n.input_size as nat);
    lemma_nat_text(n.output_size as nat);
    lemma_units_line(n.units);
    assert(parts[3] == units_line(n.units));
    assert(parse_units(parts[3]) == Some(n.units));
    assert forall|i: int| 0 <= i <= layers implies parse_weight_line(#[trigger] parts[4 + i])
        == Some(n.hidden[i]) by {
        assert(parts[4 + i] == weight_line(n.hidden[i]));
        crate::params::lemma_weight_line_round_trip(n.hidden[i]);
    }
    assert forall|i: int| 0 <= i < layers implies parse_weight_line(
        #[trigger] parts[5 + layers + i],
    ) == Some(n.recurrence[i]) by {
        assert(parts[5 + layers + i] == weight_line(n.recurrence[i]));
        crate::params::lemma_weight_line_round_trip(n.recurrence[i]);
    }
    assert forall|i: int| 0 <= i <= layers implies parse_bias_line(
        #[trigger] parts[5 + 2 * layers + i],
    ) == Some(n.biases[i]) by {
        assert(parts[5 + 2 * layers + i] == bias_line(n.biases[i]));
        crate::params::lemma_bias_line_round_trip(n.biases[i]);
    }
    assert(parts[3 * layers + 6] == name_text(n.hidden_activation));
    assert(parts[3 * layers + 7] == name_text(n.end_activation));
    crate::activation::lemma_name_round_trip(n.hidden_activation);
    crate::activation::lemma_name_round_trip(n.end_activation);
    assert(parts[3 * layers + 8].len() == 0);
    let cand = NetV {
        layers,
        input_size: parse_usize_s(parts[1]).unwrap() as int,
        output_size: parse_usize_s(parts[2]).unwrap() as int,
        units: parse_units(parts[3]).unwrap(),
        hidden: Seq::new((layers + 1) as nat, |i: int| parse_weight_line(parts[4 + i]).unwrap()),
        recurrence: Seq::new(
            layers as nat,
            |i: int| parse_weight_line(parts[5 + layers + i]).unwrap(),
        ),
        biases: Seq::new(
            (layers + 1) as nat,
            |i: int| parse_bias_line(parts[5 + 2 * layers + i]).unwrap(),
        ),
        hidden_activation: act_from_name(parts[3 * layers + 6]).unwrap(),
        end_activation: act_from_name(parts[3 * layers + 7]).unwrap(),
    };
    assert(cand.hidden =~= n.hidden);
    assert(cand.recurrence =~= n.recurrence);
    assert(cand.biases =~= n.biases);
    assert(cand == n);
    assert(parse_save(save_text(n)) == Some(cand));
}

/// A recurrent sequence-learning network.
pub struct RNN {
    layers: usize,
    input_size: usize,
    output_size: usize,
    units_by_layer: Vec<usize>,
    hidden_weights: Vec<Weight>,
    recurrence_weights: Vec<Weight>,
    biases: Vec<Bias>,
    hidden_activation: Activation,
    end_activation: Activation,
}

impl View for RNN {
    type V = NetV;

    closed spec fn view(&self) -> NetV {
        NetV {
            layers: self.layers as int,
            input_size: self.input_size as int,
            output_size: self.output_size as int,
            units: units_ints(self.units_by_layer@),
            hidden: weights_view(self.hidden_weights@),
            recurrence: weights_view(self.recurrence_weights@),
            biases: biases_view(self.biases@),
            hidden_activation: self.hidden_activation,
            end_activation: self.end_activation,
        }
    }
}

impl RNN {
    /// A freshly initialized network for the given topology: every weight
    /// and bias drawn uniformly from the configured ranges.
    pub fn new(params: &ParameterConfig, weights: WeightConfig, activations: &ActivationConfig) -> (net: RNN)
        requires
            params.layers == params.units_by_layer@.len(),
            wf_topology(
                params.input_size as int,
                params.output_size as int,
                units_ints(params.units_by_layer@),
            ),
            weights.min_weight@ < weights.max_weight@,
            weights.min_bias@ < weights.max_bias@,
        ensures
            wf_net(net@),
            net@.layers == params.layers as int,
            net@.input_size == params.input_size as int,
            net@.output_size == params.output_size as int,
            net@.units == units_ints(params.units_by_layer@),
            net@.hidden_activation == activations.hidden,
            net@.end_activation == activations.end,
    {
        let layers: usize = params.layers();
        let input_size: usize = params.input_size();
        let output_size: usize = params.output_size();
        let units_by_layer: Vec<usize> = params.units_by_layer();
        let ghost units = units_ints(units_by_layer@);
        proof {
            assert(units =~= units_ints(params.units_by_layer@));
        }

        let mut hidden_weights: Vec<Weight> = Vec::new();
        let mut recurrence_weights: Vec<Weight> = Vec::new();
        let mut biases: Vec<Bias> = Vec::new();

        let mut i: usize = 0;
        while i <= layers
            invariant
                0 <= i <= layers + 1,
                layers == units_by_layer@.len(),
                layers < usize::MAX,
                units == units_ints(units_by_layer@),
                units.len() == layers,
                forall|k: int| 0 <= k < units.len() ==> units[k] == units_by_layer@[k] as int,
                wf_topology(input_size as int, output_size as int, units),
                weights.min_weight@ < weights.max_weight@,
                weights.min_bias@ < weights.max_bias@,
                hidden_weights@.len() == i,
                biases@.len() == i,
                recurrence_weights@.len() == if i <= layers {
                    i as int
                } else {
                    layers as int
                },
                forall|k: int|
                    0 <= k < i ==> {
                        &&& (#[trigger] hidden_weights@[k])@.rows == dim_in(
                            input_size as int,
                            units,
                            k,
                        )
                        &&& hidden_weights@[k]@.cols == dim_out(output_size as int, units, k)
                        &&& wf_weight(hidden_weights@[k]@)
                    },
                forall|k: int|
                    0 <= k < i && k < layers ==> {
                        &&& (#[trigger] recurrence_weights@[k])@.rows == units[k]
                        &&& recurrence_weights@[k]@.cols == units[k]
                        &&& wf_weight(recurrence_weights@[k]@)
                    },
                forall|k: int|
                    0 <= k < i ==> {
                        &&& (#[trigger] biases@[k])@.vals.len() == dim_out(
                            output_size as int,
                            units,
                            k,
                        )
                        &&& wf_bias(biases@[k]@)
                    },
            decreases layers + 1 - i,
        {
            let dim1: usize;
            let dim2: usize;
            if i == 0 {
                dim1 = input_size;
            } else {
                dim1 = units_by_layer[i - 1];
            }
            if i == layers {
                dim2 = output_size;
            } else {
                dim2 = units_by_layer[i];
            }
            proof {
                assert(dim1 as int == dim_in(input_size as int, units, i as int));
                assert(dim2 as int == dim_out(output_size as int, units, i as int));
            }

            let hidden_weight: Weight = Weight::random(
                dim1,
                dim2,
                weights.min_weight(),
                weights.max_weight(),
            );
            hidden_weights.push(hidden_weight);

            if i != layers {
                let recurrence_weight: Weight = Weight::random(
                    dim2,
                    dim2,
                    weights.min_weight(),
                    weights.max_weight(),
                );
                recurrence_weights.push(recurrence_weight);
            }

            let bias: Bias = Bias::random(dim2, weights.min_bias(), weights.max_bias());
            biases.push(bias);

            i = i + 1;
        }

        let net = RNN {
            layers,
            input_size,
            output_size,
            units_by_layer,
            hidden_weights,
            recurrence_weights,
            biases,
            hidden_activation: activations.get_hidden(),
            end_activation: activations.get_end(),
        };
        proof {
            assert(forall|k: int|
                0 <= k < net@.hidden.len() ==> #[trigger] net@.hidden[k] == hidden_weights@[k]@);
            assert(forall|k: int|
                0 <= k < net@.recurrence.len() ==> #[trigger] net@.recurrence[k]
                    == recurrence_weights@[k]@);
            assert(forall|k: int|
                0 <= k < net@.biases.len() ==> #[trigger] net@.biases[k] == biases@[k]@);
        }
        net
    }

    /// The input dimensionality.
    pub fn input_dim(&self) -> (r: usize)
        ensures
            r as int == self@.input_size,
    {
        self.input_size
    }

    /// The output dimensionality.
    pub fn output_dim(&self) -> (r: usize)
        ensures
            r as int == self@.output_size,
    {
        self.output_size
    }

    /// The per-layer unit counts, borrowed.
    pub fn units_ref(&self) -> (r: &Vec<usize>)
        ensures
            units_ints(r@) == self@.units,
    {
        &self.units_by_layer
    }

    /// The number of hidden layers.
    pub fn layers_count(&self) -> (r: usize)
        ensures
            r as int == self@.layers,
    {
        self.layers
    }

    /// The hidden-weight matrices, borrowed.
    pub fn hidden_ref(&self) -> (r: &Vec<Weight>)
        ensures
            weights_view(r@) == self@.hidden,
    {
        &self.hidden_weights
    }

    /// The bias vectors, borrowed.
    pub fn biases_ref(&self) -> (r: &Vec<Bias>)
        ensures
            biases_view(r@) == self@.biases,
    {
        &self.biases
    }

    /// The hidden-layer activation.
    pub fn hidden_activation_of(&self) -> (r: Activation)
        ensures
            r == self@.hidden_activation,
    {
        self.hidden_activation
    }

    /// The output-layer activation.
    pub fn end_activation_of(&self) -> (r: Activation)
        ensures
            r == self@.end_activation,
    {
        self.end_activation
    }

    /// One timestep's forward pass: the output vector, the activation
    /// record (input plus each layer's post-activation, the next step's
    /// recurrent history), and the pre-activation record.
    pub fn feedforward(&self, v: Vec<Fixed>, prev: &Vec<Vec<Fixed>>) -> (r: (Vec<Fixed>, Vec<Vec<Fixed>>, Vec<Vec<Fixed>>))
        requires
            wf_net(self@),
            v@.len() == self@.input_size,
            prev_ok(self@, vecs_view(prev@)),
        ensures
            vals(r.0@) == output_of(self@, vals(v@), vecs_view(prev@)),
            vecs_view(r.1@) == acts_list(self@, vals(v@), vecs_view(prev@)),
            vecs_view(r.2@) == raws_list(self@, vals(v@), vecs_view(prev@)),
            r.0@.len() == self@.output_size,
            wf_acts(self@, vecs_view(r.1@)),
    {
        let ghost n = self@;
        let ghost vv = vals(v@);
        let ghost pv = vecs_view(prev@);
        let layers = self.layers;

        let mut activations: Vec<Vec<Fixed>> = Vec::new();
        let mut raw_nodes: Vec<Vec<Fixed>> = Vec::new();
        activations.push(copy_vec(&v));
        raw_nodes.push(copy_vec(&v));
        let mut arr: Vec<Fixed> = v;

        proof {
            assert(vals(arr@) == act_at(n, vv, pv, 0));
            assert(vecs_view(activations@)[0] == vals(arr@));
            assert(vecs_view(raw_nodes@)[0] == vals(arr@));
            assert(forall|k: int| 0 <= k < n.units.len() ==> units_ints(
                self.units_by_layer@,
            )[k] == self.units_by_layer@[k] as int);
        }

        let mut i: usize = 0;
        while i <= layers
            invariant
                0 <= i <= layers + 1,
                n == self@,
                wf_net(n),
                layers as int == n.layers,
                vv.len() == n.input_size,
                prev_ok(n, pv),
                pv == vecs_view(prev@),
                prev@.len() == pv.len(),
                forall|k: int| 0 <= k < prev@.len() ==> vals((#[trigger] prev@[k])@) == pv[k],
                vals(arr@) == if i <= layers {
                    act_at(n, vv, pv, i as int)
                } else {
                    pre_at(n, vv, pv, layers as int)
                },
                arr@.len() == if i <= layers {
                    dim_in(n.input_size, n.units, i as int)
                } else {
                    dim_out(n.output_size, n.units, layers as int)
                },
                activations@.len() == if i <= layers {
                    i + 1
                } else {
                    layers + 1
                },
                raw_nodes@.len() == i + 1,
                forall|k: int|
                    0 <= k < activations@.len() ==> vals((#[trigger] activations@[k])@) == act_at(
                        n,
                        vv,
                        pv,
                        k,
                    ),
                vals(raw_nodes@[0]@) == vv,
                forall|k: int|
                    1 <= k < raw_nodes@.len() ==> vals((#[trigger] raw_nodes@[k])@) == pre_at(
                        n,
                        vv,
                        pv,
                        k - 1,
                    ),
            decreases layers + 1 - i,
        {
            proof {
                lemma_forward_lens(n, vv, pv, i as int);
                assert(weights_view(self.hidden_weights@)[i as int]
                    == self.hidden_weights@[i as int]@);
            }
            let hidden_weight: &Weight = &self.hidden_weights[i];
            let mut pre = vec_mat_mul(&arr, hidden_weight);

            if i < layers && i + 1 < prev.len() {
                proof {
                    assert(weights_view(self.recurrence_weights@)[i as int]
                        == self.recurrence_weights@[i as int]@);
                    assert(vals(prev@[i + 1]@) == pv[i + 1]);
                    assert(pv[i + 1].len() == n.units[i as int]);
                }
                let recurrent_weight: &Weight = &self.recurrence_weights[i];
                let val = vec_mat_mul(&prev[i + 1], recurrent_weight);
                pre = vec_add(&pre, &val);
            }

            proof {
                assert(biases_view(self.biases@)[i as int] == self.biases@[i as int]@);
            }
            let bias: &Bias = &self.biases[i];
            let pre = vec_add(&pre, bias.get_row_vector());
            proof {
                assert(vals(pre@) == layer_pre(n, vals(arr@), pv, i as int));
                assert(vals(pre@) == pre_at(n, vv, pv, i as int));
            }

            raw_nodes.push(copy_vec(&pre));

            if i < layers {
                let post = apply_act(self.hidden_activation, &pre);
                proof {
                    assert(vals(post@) == act_at(n, vv, pv, i + 1));
                }
                activations.push(copy_vec(&post));
                arr = post;
            } else {
                arr = pre;
            }
            i = i + 1;
        }

        let output = apply_act(self.end_activation, &arr);
        proof {
            assert(vals(output@) == output_of(n, vv, pv));
            lemma_forward_lens(n, vv, pv, n.layers);
            assert(vecs_view(activations@) =~= acts_list(n, vv, pv));
            assert(vecs_view(raw_nodes@) =~= raws_list(n, vv, pv));
            assert forall|k: int| 1 <= k <= n.layers implies (#[trigger] acts_list(
                n,
                vv,
                pv,
            )[k]).len() == n.units[k - 1] by {
                lemma_forward_lens(n, vv, pv, k);
            }
        }
        (output, activations, raw_nodes)
    }

    /// Derive one timestep's gradients from its cached forward pass and
    /// add them into the accumulator.
    ///
    /// The recurrent gradient uses only the immediately preceding
    /// timestep's activations (a zero matrix when there are none): the
    /// documented depth-one truncation.
    pub fn add_update(
        &self,
        grad: &mut Update,
        output: Vec<Fixed>,
        answer: &Vec<Fixed>,
        act: &Vec<Vec<Fixed>>,
        prev_act: &Vec<Vec<Fixed>>,
        raw: &Vec<Vec<Fixed>>,
    )
        requires
            wf_net(self@),
            output@.len() == self@.output_size,
            answer@.len() == self@.output_size,
            wf_acts(self@, vecs_view(act@)),
            prev_ok(self@, vecs_view(prev_act@)),
            raws_ok(self@, vecs_view(raw@)),
            update_matches(self@, old(grad)@),
            old(grad)@.batch_count < usize::MAX,
        ensures
            final(grad)@ == combined(
                old(grad)@,
                step_grads(
                    self@,
                    vals(answer@),
                    vals(output@),
                    vecs_view(act@),
                    vecs_view(prev_act@),
                    vecs_view(raw@),
                ),
            ),
    {
        let ghost n = self@;
        let ghost av = vecs_view(act@);
        let ghost pv = vecs_view(prev_act@);
        let ghost rv = vecs_view(raw@);
        let ghost gr = step_grads(n, vals(answer@), vals(output@), av, pv, rv);
        let layers = self.layers;

        proof {
            assert(vecs_view(raw@)[layers + 1] == vals(raw@[layers + 1]@));
        }
        let raw_outputs: &Vec<Fixed> = &raw[layers + 1];
        let mut prev_grad: Vec<Fixed> = compute_output_grad(
            &output,
            answer,
            raw_outputs,
            self.end_activation,
        );
        let ghost gout = vals(prev_grad@);

        let mut hidden_grads: Vec<Weight> = Vec::new();
        let mut recurrence_grads: Vec<Weight> = Vec::new();
        let mut bias_grads: Vec<Bias> = Vec::new();

        let mut i: usize = layers + 1;
        while i > 0
            invariant
                0 <= i <= layers + 1,
                n == self@,
                wf_net(n),
                layers as int == n.layers,
                av == vecs_view(act@),
                pv == vecs_view(prev_act@),
                rv == vecs_view(raw@),
                act@.len() == av.len(),
                forall|k: int| 0 <= k < act@.len() ==> vals((#[trigger] act@[k])@) == av[k],
                prev_act@.len() == pv.len(),
                forall|k: int| 0 <= k < prev_act@.len() ==> vals((#[trigger] prev_act@[k])@) == pv[k],
                raw@.len() == rv.len(),
                forall|k: int| 0 <= k < raw@.len() ==> vals((#[trigger] raw@[k])@) == rv[k],
                wf_acts(n, av),
                prev_ok(n, pv),
                raws_ok(n, rv),
                gout.len() == n.output_size,
                gr == step_grads(n, vals(answer@), vals(output@), av, pv, rv),
                gout == output_grad_s(vals(output@), vals(answer@), rv[n.layers + 1], n.end_activation),
                vals(prev_grad@) == g_at(n, rv, gout, i as int - 1),
                hidden_grads@.len() == layers + 1 - i,
                forall|j: int|
                    0 <= j < hidden_grads@.len() ==> (#[trigger] hidden_grads@[j])@ == gr.hidden[
                        i + j
                    ],
                bias_grads@.len() == layers + 1 - i,
                forall|j: int|
                    0 <= j < bias_grads@.len() ==> (#[trigger] bias_grads@[j])@ == gr.biases[i + j],
                recurrence_grads@.len() == if i <= layers {
                    layers - i
                } else {
                    0
                },
                forall|j: int|
                    0 <= j < recurrence_grads@.len() ==> (#[trigger] recurrence_grads@[j])@
                        == gr.recurrence[i + j],
            decreases i,
        {
            let layer = i - 1;
            proof {
                lemma_g_len(n, rv, gout, layer as int);
                assert(av[layer as int].len() == dim_in(n.input_size, n.units, layer as int));
                assert(vals(act@[layer as int]@) == av[layer as int]);
                assert(weights_view(self.hidden_weights@)[layer as int]
                    == self.hidden_weights@[layer as int]@);
            }

            let layer_activation: &Vec<Fixed> = &act[layer];
            let raw_input: &Vec<Fixed> = &raw[layer];

            let dim = self.hidden_weights[layer].dim();
            let hidden: Weight = compute_hidden_grad(dim, &prev_grad, layer_activation);
            let bias: Vec<Fixed> = compute_bias_grad(&prev_grad);

            proof {
                assert(hidden@ == gr.hidden[layer as int]);
                assert(vals(bias@) == gr.biases[layer as int].vals);
            }
            hidden_grads.insert(0, hidden);
            bias_grads.insert(0, Bias::from_vec(bias));

            if layer < layers {
                let layer_dim: usize = self.units_by_layer[layer];
                proof {
                    assert(units_ints(self.units_by_layer@)[layer as int]
                        == self.units_by_layer@[layer as int] as int);
                    assert(layer_dim as int == n.units[layer as int]);
                    if layer + 1 < pv.len() {
                        assert(vals(prev_act@[layer + 1]@) == pv[layer + 1]);
                        assert(pv[layer + 1].len() == n.units[layer as int]);
                    }
                }
                let prev_activation: Option<&Vec<Fixed>> = if layer + 1 < prev_act.len() {
                    Some(&prev_act[layer + 1])
                } else {
                    None
                };
                let recurrence: Weight = compute_recurrence_grad(
                    (layer_dim, layer_dim),
                    &prev_grad,
                    prev_activation,
                );
                proof {
                    assert(recurrence@ == gr.recurrence[layer as int]);
                }
                recurrence_grads.insert(0, recurrence);
            }

            proof {
                assert(vals(raw@[layer as int]@) == rv[layer as int]);
                if layer >= 1 {
                    assert(rv[layer as int].len() == dim_out(n.output_size, n.units, layer - 1));
                }
            }
            prev_grad = compute_backpropogated_grad(
                &self.hidden_weights[layer],
                self.hidden_activation,
                prev_grad,
                raw_input,
            );
            proof {
                assert(vals(prev_grad@) == g_at(n, rv, gout, layer as int - 1));
            }
            i = layer;
        }

        proof {
            assert forall|j: int| 0 <= j < layers + 1 implies same_shape_w(
                #[trigger] weights_view(hidden_grads@)[j],
                old(grad)@.hidden[j],
            ) by {
                assert(weights_view(hidden_grads@)[j] == hidden_grads@[j]@);
                assert(hidden_grads@[j]@ == gr.hidden[j]);
                lemma_g_len(n, rv, gout, j);
                assert(gr.hidden[j].rows == av[j].len());
            }
            assert forall|j: int| 0 <= j < layers implies same_shape_w(
                #[trigger] weights_view(recurrence_grads@)[j],
                old(grad)@.recurrence[j],
            ) by {
                assert(weights_view(recurrence_grads@)[j] == recurrence_grads@[j]@);
                assert(recurrence_grads@[j]@ == gr.recurrence[j]);
                lemma_g_len(n, rv, gout, j);
            }
            assert forall|j: int| 0 <= j < layers + 1 implies biases_view(bias_grads@)[j].vals.len()
                == old(grad)@.biases[j].vals.len() by {
                assert(biases_view(bias_grads@)[j] == bias_grads@[j]@);
                assert(bias_grads@[j]@ == gr.biases[j]);
                lemma_g_len(n, rv, gout, j);
            }
        }
        grad.combine_update(hidden_grads, recurrence_grads, bias_grads);
        proof {
            assert(forall|j: int|
                0 <= j < hidden_grads@.len() ==> #[trigger] weights_view(hidden_grads@)[j]
                    == hidden_grads@[j]@);
            assert(forall|j: int|
                0 <= j < recurrence_grads@.len() ==> #[trigger] weights_view(recurrence_grads@)[j]
                    == recurrence_grads@[j]@);
            assert(forall|j: int|
                0 <= j < bias_grads@.len() ==> #[trigger] biases_view(bias_grads@)[j]
                    == bias_grads@[j]@);
            assert(final(grad)@.hidden =~= combined(old(grad)@, gr).hidden);
            assert(final(grad)@.recurrence =~= combined(old(grad)@, gr).recurrence);
            assert(final(grad)@.biases =~= combined(old(grad)@, gr).biases);
        }
    }

    /// Apply the accumulated batch: every weight and bias takes one
    /// gradient-descent step scaled by the learning rate, and the
    /// accumulator is cleared.
    pub fn process_update(&mut self, grad: &mut Update, alpha: Fixed)
        requires
            wf_net(old(self)@),
            update_matches(old(self)@, old(grad)@),
        ensures
            final(self)@ == applied_net(old(self)@, old(grad)@, alpha@),
            wf_net(final(self)@),
            final(grad)@ == cleared(old(grad)@),
    {
        let ghost n = old(self)@;
        let layers = self.layers;
        let mut i: usize = 0;
        while i <= layers
            invariant
                0 <= i <= layers + 1,
                layers as int == n.layers,
                wf_net(n),
                update_matches(n, grad@),
                grad@ == old(grad)@,
                self.layers == old(self).layers,
                self.input_size == old(self).input_size,
                self.output_size == old(self).output_size,
                self.units_by_layer@ == old(self).units_by_layer@,
                self.recurrence_weights@ == old(self).recurrence_weights@,
                self.biases@ == old(self).biases@,
                self.hidden_activation == old(self).hidden_activation,
                self.end_activation == old(self).end_activation,
                old(self)@ == n,
                self.hidden_weights@.len() == layers + 1,
                forall|k: int|
                    i <= k <= layers ==> #[trigger] self.hidden_weights@[k] == old(
                        self,
                    ).hidden_weights@[k],
                forall|k: int|
                    0 <= k < i ==> (#[trigger] self.hidden_weights@[k])@ == (WeightV {
                        rows: n.hidden[k].rows,
                        cols: n.hidden[k].cols,
                        vals: stepped_vals(n.hidden[k].vals, grad@.hidden[k].vals, alpha@),
                    }),
            decreases layers + 1 - i,
        {
            proof {
                assert(weights_view(old(self).hidden_weights@)[i as int] == old(
                    self,
                ).hidden_weights@[i as int]@);
            }
            let mut w = self.hidden_weights.remove(i);
            let hu = grad.get_hidden_update();
            proof {
                assert(weights_view(hu@)[i as int] == hu@[i as int]@);
            }
            w.update(&hu[i], alpha);
            self.hidden_weights.insert(i, w);
            i = i + 1;
        }
        let mut i: usize = 0;
        while i < layers
            invariant
                0 <= i <= layers,
                layers as int == n.layers,
                wf_net(n),
                update_matches(n, grad@),
                grad@ == old(grad)@,
                self.layers == old(self).layers,
                self.input_size == old(self).input_size,
                self.output_size == old(self).output_size,
                self.units_by_layer@ == old(self).units_by_layer@,
                self.biases@ == old(self).biases@,
                self.hidden_activation == old(self).hidden_activation,
                self.end_activation == old(self).end_activation,
                old(self)@ == n,
                self.hidden_weights@.len() == layers + 1,
                forall|k: int|
                    0 <= k <= layers ==> (#[trigger] self.hidden_weights@[k])@ == (WeightV {
                        rows: n.hidden[k].rows,
                        cols: n.hidden[k].cols,
                        vals: stepped_vals(n.hidden[k].vals, grad@.hidden[k].vals, alpha@),
                    }),
                self.recurrence_weights@.len() == layers as int,
                forall|k: int|
                    i <= k < layers ==> #[trigger] self.recurrence_weights@[k] == old(
                        self,
                    ).recurrence_weights@[k],
                forall|k: int|
                    0 <= k < i ==> (#[trigger] self.recurrence_weights@[k])@ == (WeightV {
                        rows: n.recurrence[k].rows,
                        cols: n.recurrence[k].cols,
                        vals: stepped_vals(n.recurrence[k].vals, grad@.recurrence[k].vals, alpha@),
                    }),
            decreases layers - i,
        {
            proof {
                assert(weights_view(old(self).recurrence_weights@)[i as int] == old(
                    self,
                ).recurrence_weights@[i as int]@);
            }
            let mut w = self.recurrence_weights.remove(i);
            let ru = grad.get_recurrence_update();
            proof {
                assert(weights_view(ru@)[i as int] == ru@[i as int]@);
            }
            w.update(&ru[i], alpha);
            self.recurrence_weights.insert(i, w);
            i = i + 1;
        }
        let mut i: usize = 0;
        while i <= layers
            invariant
                0 <= i <= layers + 1,
                layers as int == n.layers,
                wf_net(n),
                update_matches(n, grad@),
                grad@ == old(grad)@,
                self.layers == old(self).layers,
                self.input_size == old(self).input_size,
                self.output_size == old(self).output_size,
                self.units_by_layer@ == old(self).units_by_layer@,
                self.hidden_activation == old(self).hidden_activation,
                self.end_activation == old(self).end_activation,
                old(self)@ == n,
                self.hidden_weights@.len() == layers + 1,
                forall|k: int|
                    0 <= k <= layers ==> (#[trigger] self.hidden_weights@[k])@ == (WeightV {
                        rows: n.hidden[k].rows,
                        cols: n.hidden[k].cols,
                        vals: stepped_vals(n.hidden[k].vals, grad@.hidden[k].vals, alpha@),
                    }),
                self.recurrence_weights@.len() == layers as int,
                forall|k: int|
                    0 <= k < layers ==> (#[trigger] self.recurrence_weights@[k])@ == (WeightV {
                        rows: n.recurrence[k].rows,
                        cols: n.recurrence[k].cols,
                        vals: stepped_vals(n.recurrence[k].vals, grad@.recurrence[k].vals, alpha@),
                    }),
                self.biases@.len() == layers + 1,
                forall|k: int|
                    i <= k <= layers ==> #[trigger] self.biases@[k] == old(self).biases@[k],
                forall|k: int|
                    0 <= k < i ==> (#[trigger] self.biases@[k])@ == (BiasV {
                        vals: stepped_vals(n.biases[k].vals, grad@.biases[k].vals, alpha@),
                    }),
            decreases layers + 1 - i,
        {
            proof {
                assert(biases_view(old(self).biases@)[i as int] == old(self).biases@[i as int]@);
            }
            let mut b = self.biases.remove(i);
            let bu = grad.get_biases_update();
            proof {
                assert(biases_view(bu@)[i as int] == bu@[i as int]@);
            }
            b.update(&bu[i], alpha);
            self.biases.insert(i, b);
            i = i + 1;
        }
        grad.clear();
        proof {
            assert(final(grad)@.hidden =~= cleared(old(grad)@).hidden);
            assert(final(grad)@.recurrence =~= cleared(old(grad)@).recurrence);
            assert(final(grad)@.biases =~= cleared(old(grad)@).biases);
            let a = applied_net(n, old(grad)@, alpha@);
            assert(self@.units =~= a.units);
            assert(self@.hidden =~= a.hidden);
            assert(self@.recurrence =~= a.recurrence);
            assert(self@.biases =~= a.biases);
            lemma_applied_wf(n, old(grad)@, alpha@);
        }
    }

    /// The save text of the network: one record per line, in the fixed
    /// order the format prescribes.
    pub fn to_save(&self) -> (out: Vec<u8>)
        requires
            wf_net(self@),
        ensures
            out@ == save_text(self@),
    {
        let ghost n = self@;
        let ghost target = save_lines(n);
        let layers = self.layers;
        let mut out: Vec<u8> = Vec::new();
        let ghost mut done: Seq<Seq<u8>> = Seq::empty();
        proof {
            assert(out@ =~= lines_text(done));
            assert(forall|k: int| 0 <= k < n.units.len() ==> units_ints(
                self.units_by_layer@,
            )[k] == self.units_by_layer@[k] as int);
        }

        let mut line: Vec<u8> = Vec::new();
        push_digits(self.layers as u64, &mut line);
        proof {
            lemma_lines_push(done, line@);
        }
        append_line(&mut out, line);
        proof {
            done = done.push(digits_of(n.layers as nat));
            assert(out@ == lines_text(done));
        }

        let mut line: Vec<u8> = Vec::new();
        push_digits(self.input_size as u64, &mut line);
        proof {
            lemma_lines_push(done, line@);
        }
        append_line(&mut out, line);
        proof {
            done = done.push(digits_of(n.input_size as nat));
            assert(out@ == lines_text(done));
        }

        let mut line: Vec<u8> = Vec::new();
        push_digits(self.output_size as u64, &mut line);
        proof {
            lemma_lines_push(done, line@);
        }
        append_line(&mut out, line);
        proof {
            done = done.push(digits_of(n.output_size as nat));
            assert(out@ == lines_text(done));
        }

        let ghost ufields = n.units.map_values(|u: int| digits_of(u as nat));
        let mut line: Vec<u8> = Vec::new();
        let mut k: usize = 0;
        proof {
            assert(line@ =~= joined_text(ufields.take(0), 44));
        }
        while k < layers
            invariant
                0 <= k <= layers,
                n == self@,
                layers as int == n.layers,
                layers == self.units_by_layer@.len(),
                n.units == units_ints(self.units_by_layer@),
                forall|j: int| 0 <= j < n.units.len() ==> n.units[j] == self.units_by_layer@[
                    j
                ] as int,
                ufields == n.units.map_values(|u: int| digits_of(u as nat)),
                line@ == joined_text(ufields.take(k as int), 44),
            decreases layers - k,
        {
            proof {
                assert(ufields[k as int] == digits_of(n.units[k as int] as nat));
                assert(ufields.take(k + 1) =~= ufields.take(k as int).push(ufields[k as int]));
                lemma_joined_push(ufields.take(k as int), ufields[k as int], 44);
            }
            if k > 0 {
                line.push(44);
            }
            push_digits(self.units_by_layer[k] as u64, &mut line);
            proof {
                assert(line@ =~= joined_text(ufields.take(k + 1), 44));
            }
            k = k + 1;
        }
        proof {
            assert(ufields.take(layers as int) =~= ufields);
            assert(line@ == units_line(n.units));
            lemma_lines_push(done, line@);
        }
        append_line(&mut out, line);
        proof {
            done = done.push(units_line(n.units));
            assert(out@ == lines_text(done));
            assert(done =~= target.take(4));
        }

        let mut i: usize = 0;
        while i <= layers
            invariant
                0 <= i <= layers + 1,
                n == self@,
                wf_net(n),
                layers as int == n.layers,
                target == save_lines(n),
                done == target.take(4 + i as int),
                out@ == lines_text(done),
            decreases layers + 1 - i,
        {
            proof {
                assert(weights_view(self.hidden_weights@)[i as int]
                    == self.hidden_weights@[i as int]@);
                assert(target[4 + i] == weight_line(n.hidden[i as int]));
            }
            let line = self.hidden_weights[i].to_text();
            proof {
                lemma_lines_push(done, line@);
            }
            append_line(&mut out, line);
            proof {
                done = done.push(weight_line(n.hidden[i as int]));
                assert(done =~= target.take(4 + i + 1));
                assert(out@ == lines_text(done));
            }
            i = i + 1;
        }

        let mut i: usize = 0;
        while i < layers
            invariant
                0 <= i <= layers,
                n == self@,
                wf_net(n),
                layers as int == n.layers,
                target == save_lines(n),
                done == target.take(5 + layers + i as int),
                out@ == lines_text(done),
            decreases layers - i,
        {
            proof {
                assert(weights_view(self.recurrence_weights@)[i as int]
                    == self.recurrence_weights@[i as int]@);
                assert(target[5 + layers + i] == weight_line(n.recurrence[i as int]));
            }
            let line = self.recurrence_weights[i].to_text();
            proof {
                lemma_lines_push(done, line@);
            }
            append_line(&mut out, line);
            proof {
                done = done.push(weight_line(n.recurrence[i as int]));
                assert(done =~= target.take(5 + layers + i + 1));
                assert(out@ == lines_text(done));
            }
            i = i + 1;
        }

        let mut i: usize = 0;
        while i <= layers
            invariant
                0 <= i <= layers + 1,
                n == self@,
                wf_net(n),
                layers as int == n.layers,
                target == save_lines(n),
                done == target.take(5 + 2 * (layers as int) + i as int),
                out@ == lines_text(done),
            decreases layers + 1 - i,
        {
            proof {
                assert(biases_view(self.biases@)[i as int] == self.biases@[i as int]@);
                assert(target[5 + 2 * (layers as int) + i as int] == bias_line(
                    n.biases[i as int],
                ));
            }
            let line = self.biases[i].to_text();
            proof {
                lemma_lines_push(done, line@);
            }
            append_line(&mut out, line);
            proof {
                done = done.push(bias_line(n.biases[i as int]));
                assert(done =~= target.take(5 + 2 * (layers as int) + i + 1));
                assert(out@ == lines_text(done));
            }
            i = i + 1;
        }

        let mut line: Vec<u8> = Vec::new();
        self.hidden_activation.push_name(&mut line);
        proof {
            assert(target[3 * (layers as int) + 6] == name_text(n.hidden_activation));
            lemma_lines_push(done, line@);
        }
        append_line(&mut out, line);
        proof {
            done = done.push(name_text(n.hidden_activation));
            assert(done =~= target.take(3 * (layers as int) + 7));
            assert(out@ == lines_text(done));
        }

        let mut line: Vec<u8> = Vec::new();
        self.end_activation.push_name(&mut line);
        proof {
            assert(target[3 * (layers as int) + 7] == name_text(n.end_activation));
            lemma_lines_push(done, line@);
        }
        append_line(&mut out, line);
        proof {
            done = done.push(name_text(n.end_activation));
            assert(done =~= target);
            assert(out@ == lines_text(done));
        }
        out
    }

    /// Parse save data as a network. Every numeric field and every
    /// declared shape is validated against the topology the header
    /// declares; any malformed record fails the whole load with no
    /// partial result.
    #[verifier::loop_isolation(false)]
    #[verifier::rlimit(100)]
    pub fn from_save(data: &[u8]) -> (r: Result<RNN, LoadError>)
        ensures
            match r {
                Ok(net) => parse_save(data@) == Some(net@) && wf_net(net@),
                Err(e) => parse_save(data@) is None && e == LoadError::Malformed,
            },
    {
        let ghost sparts = split_on(data@, 10);
        let parts = split_bytes(data, 10);
        let np = parts.len();
        proof {
            assert(parts@.len() == np as int);
            assert(forall|j: int|
                0 <= j < parts@.len() ==> #[trigger] parts.deep_view()[j] == parts@[j]@);
            assert(sparts.len() == parts@.len());
            if parts@.len() >= 4 {
                assert(sparts[0] == parts@[0]@);
                assert(sparts[1] == parts@[1]@);
                assert(sparts[2] == parts@[2]@);
                assert(sparts[3] == parts@[3]@);
            }
        }
        if parts.len() < 4 {
            return Err(LoadError::Malformed);
        }
        let layers = match parse_usize(parts[0].as_slice()) {
            Some(v) => v,
            None => {
                return Err(LoadError::Malformed);
            },
        };
        let expected = match layers.checked_mul(3) {
            Some(p) => match p.checked_add(9) {
                Some(e) => e,
                None => {
                    proof {
                        assert(parts@.len() <= usize::MAX);
                    }
                    return Err(LoadError::Malformed);
                },
            },
            None => {
                proof {
                    assert(parts@.len() <= usize::MAX);
                }
                return Err(LoadError::Malformed);
            },
        };
        if parts.len() != expected {
            return Err(LoadError::Malformed);
        }
        if parts[expected - 1].len() != 0 {
            return Err(LoadError::Malformed);
        }
        let input_size = match parse_usize(parts[1].as_slice()) {
            Some(v) => v,
            None => {
                return Err(LoadError::Malformed);
            },
        };
        let output_size = match parse_usize(parts[2].as_slice()) {
            Some(v) => v,
            None => {
                return Err(LoadError::Malformed);
            },
        };

        let ghost sufields = split_on(sparts[3], 44);
        let ufields = split_bytes(parts[3].as_slice(), 44);
        proof {
            assert(parts@[3]@ == sparts[3]);
            assert(ufields.deep_view() == sufields);
            assert(forall|j: int|
                0 <= j < ufields@.len() ==> #[trigger] ufields.deep_view()[j] == ufields@[j]@);
        }
        let mut units_by_layer: Vec<usize> = Vec::new();
        let nfields = ufields.len();
        let mut k: usize = 0;
        while k < nfields
            invariant
                0 <= k <= nfields,
                nfields == ufields@.len(),
                ufields.deep_view() == sufields,
                forall|j: int|
                    0 <= j < ufields@.len() ==> #[trigger] ufields.deep_view()[j] == ufields@[j]@,
                units_by_layer@.len() == k,
                forall|j: int|
                    0 <= j < k ==> parse_usize_s(#[trigger] sufields[j]) is Some,
                forall|j: int|
                    0 <= j < k ==> #[trigger] units_by_layer@[j] == parse_usize_s(
                        sufields[j],
                    ).unwrap(),
            decreases nfields - k,
        {
            match parse_usize(ufields[k].as_slice()) {
                Some(u) => {
                    units_by_layer.push(u);
                },
                None => {
                    proof {
                        assert(ufields.deep_view()[k as int] == ufields@[k as int]@);
                        assert(parse_usize_s(sufields[k as int]) is None);
                        assert(parse_units(sparts[3]) is None);
                    }
                    return Err(LoadError::Malformed);
                },
            }
            k = k + 1;
        }
        proof {
            assert(parse_units(sparts[3]) is Some);
            assert(units_ints(units_by_layer@) =~= parse_units(sparts[3]).unwrap());
        }

        let mut hidden_weights: Vec<Weight> = Vec::new();
        let mut i: usize = 0;
        while i <= layers
            invariant
                0 <= i <= layers + 1,
                sparts == split_on(data@, 10),
                parts.deep_view() == sparts,
                forall|j: int|
                    0 <= j < parts@.len() ==> #[trigger] parts.deep_view()[j] == parts@[j]@,
                parts@.len() == 3 * (layers as int) + 9,
                hidden_weights@.len() == i,
                forall|j: int|
                    0 <= j < i ==> parse_weight_line(#[trigger] sparts[4 + j]) is Some,
                forall|j: int|
                    0 <= j < i ==> (#[trigger] hidden_weights@[j])@ == parse_weight_line(
                        sparts[4 + j],
                    ).unwrap() && wf_weight(hidden_weights@[j]@),
            decreases layers + 1 - i,
        {
            match Weight::from_text(parts[4 + i].as_slice()) {
                Some(w) => {
                    hidden_weights.push(w);
                },
                None => {
                    proof {
                        assert(parts.deep_view()[4 + i as int] == parts@[4 + i as int]@);
                        assert(parse_weight_line(sparts[4 + i as int]) is None);
                    }
                    return Err(LoadError::Malformed);
                },
            }
            i = i + 1;
        }

        let mut recurrence_weights: Vec<Weight> = Vec::new();
        let mut i: usize = 0;
        while i < layers
            invariant
                0 <= i <= layers,
                sparts == split_on(data@, 10),
                parts.deep_view() == sparts,
                forall|j: int|
                    0 <= j < parts@.len() ==> #[trigger] parts.deep_view()[j] == parts@[j]@,
                parts@.len() == 3 * (layers as int) + 9,
                recurrence_weights@.len() == i,
                forall|j: int|
                    0 <= j < i ==> parse_weight_line(#[trigger] sparts[5 + layers + j]) is Some,
                forall|j: int|
                    0 <= j < i ==> (#[trigger] recurrence_weights@[j])@ == parse_weight_line(
                        sparts[5 + layers + j],
                    ).unwrap() && wf_weight(recurrence_weights@[j]@),
            decreases layers - i,
        {
            match Weight::from_text(parts[5 + layers + i].as_slice()) {
                Some(w) => {
                    recurrence_weights.push(w);
                },
                None => {
                    proof {
                        assert(parts.deep_view()[5 + layers + i as int] == parts@[5 + layers
                            + i as int]@);
                        assert(parse_weight_line(sparts[5 + layers + i as int]) is None);
                    }
                    return Err(LoadError::Malformed);
                },
            }
            i = i + 1;
        }

        let mut biases: Vec<Bias> = Vec::new();
        let mut i: usize = 0;
        while i <= layers
            invariant
                0 <= i <= layers + 1,
                sparts == split_on(data@, 10),
                parts.deep_view() == sparts,
                forall|j: int|
                    0 <= j < parts@.len() ==> #[trigger] parts.deep_view()[j] == parts@[j]@,
                parts@.len() == 3 * (layers as int) + 9,
                biases@.len() == i,
                forall|j: int|
                    0 <= j < i ==> parse_bias_line(#[trigger] sparts[5 + 2 * layers + j]) is Some,
                forall|j: int|
                    0 <= j < i ==> (#[trigger] biases@[j])@ == parse_bias_line(
                        sparts[5 + 2 * layers + j],
                    ).unwrap() && wf_bias(biases@[j]@),
            decreases layers + 1 - i,
        {
            match Bias::from_text(parts[5 + 2 * layers + i].as_slice()) {
                Some(b) => {
                    biases.push(b);
                },
                None => {
                    proof {
                        assert(parts.deep_view()[5 + 2 * layers + i as int] == parts@[5 + 2
                            * layers + i as int]@);
                        assert(parse_bias_line(sparts[5 + 2 * layers + i as int]) is None);
                    }
                    return Err(LoadError::Malformed);
                },
            }
            i = i + 1;
        }

        let hidden_activation = match Activation::from_name(parts[3 * layers + 6].as_slice()) {
            Some(a) => a,
            None => {
                return Err(LoadError::Malformed);
            },
        };
        let end_activation = match Activation::from_name(parts[3 * layers + 7].as_slice()) {
            Some(a) => a,
            None => {
                return Err(LoadError::Malformed);
            },
        };

        let net = RNN {
            layers,
            input_size,
            output_size,
            units_by_layer,
            hidden_weights,
            recurrence_weights,
            biases,
            hidden_activation,
            end_activation,
        };
        let ghost cand = net@;
        proof {
            assert(forall|j: int|
                0 <= j < cand.hidden.len() ==> #[trigger] cand.hidden[j]
                    == net.hidden_weights@[j]@);
            assert(forall|j: int|
                0 <= j < cand.recurrence.len() ==> #[trigger] cand.recurrence[j]
                    == net.recurrence_weights@[j]@);
            assert(forall|j: int|
                0 <= j < cand.biases.len() ==> #[trigger] cand.biases[j] == net.biases@[j]@);
            assert(forall|j: int|
                0 <= j < cand.units.len() ==> #[trigger] cand.units[j] == net.units_by_layer@[
                    j
                ] as int);
            assert(parse_save(data@) == if wf_net(cand) {
                Some(cand)
            } else {
                None
            }) by {
                let sc = NetV {
                    layers: layers as int,
                    input_size: input_size as int,
                    output_size: output_size as int,
                    units: parse_units(sparts[3]).unwrap(),
                    hidden: Seq::new(
                        (layers + 1) as nat,
                        |i: int| parse_weight_line(sparts[4 + i]).unwrap(),
                    ),
                    recurrence: Seq::new(
                        layers as nat,
                        |i: int| parse_weight_line(sparts[5 + layers + i]).unwrap(),
                    ),
                    biases: Seq::new(
                        (layers + 1) as nat,
                        |i: int| parse_bias_line(sparts[5 + 2 * layers + i]).unwrap(),
                    ),
                    hidden_activation,
                    end_activation,
                };
                assert(sc.units =~= cand.units);
                assert(sc.hidden =~= cand.hidden);
                assert(sc.recurrence =~= cand.recurrence);
                assert(sc.biases =~= cand.biases);
                assert(sc == cand);
            }
        }
        if net.check_shapes() {
            Ok(net)
        } else {
            Err(LoadError::Malformed)
        }
    }

    /// Whether the parameter arrays match the topology the header fields
    /// declare: the whole shape invariant, checked record by record.
    pub fn check_shapes(&self) -> (r: bool)
        requires
            forall|j: int|
                0 <= j < self@.hidden.len() ==> wf_weight(#[trigger] self@.hidden[j]),
            forall|j: int|
                0 <= j < self@.recurrence.len() ==> wf_weight(#[trigger] self@.recurrence[j]),
            forall|j: int| 0 <= j < self@.biases.len() ==> wf_bias(#[trigger] self@.biases[j]),
        ensures
            r == wf_net(self@),
    {
        let ghost n = self@;
        let layers = self.layers;
        if layers < 1 || self.input_size < 1 || self.output_size < 1 {
            return false;
        }
        if self.units_by_layer.len() != layers {
            return false;
        }
        if layers == usize::MAX {
            proof {
                assert(n.units.len() == usize::MAX);
                assert(!wf_topology(n.input_size, n.output_size, n.units));
            }
            return false;
        }
        if self.hidden_weights.len() != layers + 1 || self.recurrence_weights.len() != layers
            || self.biases.len() != layers + 1 {
            return false;
        }
        proof {
            assert(forall|j: int| 0 <= j < n.units.len() ==> #[trigger] n.units[j]
                == self.units_by_layer@[j] as int);
            assert(forall|j: int|
                0 <= j < n.hidden.len() ==> #[trigger] n.hidden[j] == self.hidden_weights@[j]@);
            assert(forall|j: int|
                0 <= j < n.recurrence.len() ==> #[trigger] n.recurrence[j]
                    == self.recurrence_weights@[j]@);
            assert(forall|j: int|
                0 <= j < n.biases.len() ==> #[trigger] n.biases[j] == self.biases@[j]@);
        }
        let mut i: usize = 0;
        while i <= layers
            invariant
                0 <= i <= layers + 1,
                n == self@,
                layers as int == n.layers,
                layers < usize::MAX,
                1 <= n.input_size,
                1 <= n.output_size,
                n.units.len() == n.layers,
                n.hidden.len() == n.layers + 1,
                n.recurrence.len() == n.layers,
                n.biases.len() == n.layers + 1,
                layers == self.units_by_layer@.len(),
                forall|j: int| 0 <= j < n.units.len() ==> #[trigger] n.units[j]
                    == self.units_by_layer@[j] as int,
                forall|j: int|
                    0 <= j < n.hidden.len() ==> wf_weight(#[trigger] n.hidden[j]),
                forall|j: int|
                    0 <= j < n.recurrence.len() ==> wf_weight(#[trigger] n.recurrence[j]),
                forall|j: int| 0 <= j < n.biases.len() ==> wf_bias(#[trigger] n.biases[j]),
                forall|j: int|
                    0 <= j < i && j < n.layers ==> 1 <= #[trigger] n.units[j],
                forall|j: int|
                    0 <= j < i ==> (#[trigger] n.hidden[j]).rows == dim_in(
                        n.input_size,
                        n.units,
                        j,
                    ) && n.hidden[j].cols == dim_out(n.output_size, n.units, j),
                forall|j: int|
                    0 <= j < i && j < n.layers ==> (#[trigger] n.recurrence[j]).rows == n.units[j]
                        && n.recurrence[j].cols == n.units[j],
                forall|j: int|
                    0 <= j < i ==> (#[trigger] n.biases[j]).vals.len() == dim_out(
                        n.output_size,
                        n.units,
                        j,
                    ),
            decreases layers + 1 - i,
        {
            let dim1: usize;
            let dim2: usize;
            if i == 0 {
                dim1 = self.input_size;
            } else {
                dim1 = self.units_by_layer[i - 1];
            }
            if i == layers {
                dim2 = self.output_size;
            } else {
                dim2 = self.units_by_layer[i];
                if dim2 < 1 {
                    proof {
                        assert(n.units[i as int] < 1);
                    }
                    return false;
                }
            }
            proof {
                assert(dim1 as int == dim_in(n.input_size, n.units, i as int));
                assert(dim2 as int == dim_out(n.output_size, n.units, i as int));
                assert(weights_view(self.hidden_weights@)[i as int]
                    == self.hidden_weights@[i as int]@);
                assert(biases_view(self.biases@)[i as int] == self.biases@[i as int]@);
            }
            let (hr, hc) = self.hidden_weights[i].dim();
            if hr != dim1 || hc != dim2 {
                return false;
            }
            if i < layers {
                proof {
                    assert(weights_view(self.recurrence_weights@)[i as int]
                        == self.recurrence_weights@[i as int]@);
                }
                let (rr, rc) = self.recurrence_weights[i].dim();
                if rr != dim2 || rc != dim2 {
                    return false;
                }
            }
            if self.biases[i].len() != dim2 {
                return false;
            }
            i = i + 1;
        }
        proof {
            assert(wf_topology(n.input_size, n.output_size, n.units)) by {
                assert forall|j: int| 0 <= j <= n.units.len() implies #[trigger] dim_in(
                    n.input_size,
                    n.units,
                    j,
                ) * dim_out(n.output_size, n.units, j) <= usize::MAX by {
                    assert(wf_weight(n.hidden[j]));
                    assert(n.hidden[j].rows == dim_in(n.input_size, n.units, j));
                    assert(n.hidden[j].cols == dim_out(n.output_size, n.units, j));
                }
                assert forall|j: int| 0 <= j < n.units.len() implies #[trigger] n.units[j]
                    * n.units[j] <= usize::MAX by {
                    assert(wf_weight(n.recurrence[j]));
                    assert(n.recurrence[j].rows == n.units[j]);
                    assert(n.recurrence[j].cols == n.units[j]);
                }
                assert(1 <= n.input_size <= usize::MAX);
            }
        }
        true
    }

    /// Train on one sequence: run inference timestep by timestep, derive
    /// each timestep's gradient, and apply an update whenever `batch`
    /// contributions have accumulated. The whole run is the spec function
    /// `train_states`, unrolled once per timestep.
    #[verifier::rlimit(80)]
    pub fn predict_and_update(&mut self, seq: Vec<Vec<Fixed>>, ans: &Vec<Vec<Fixed>>, batch: usize)
        requires
            wf_net(old(self)@),
            forall|t: int|
                0 <= t < seq@.len() ==> (#[trigger] seq@[t])@.len() == old(self)@.input_size,
            ans@.len() >= seq@.len(),
            forall|t: int|
                0 <= t < seq@.len() ==> (#[trigger] ans@[t])@.len() == old(self)@.output_size,
        ensures
            final(self)@ == train_states(
                old(self)@,
                vecs_view(seq@),
                vecs_view(ans@),
                batch as int,
                seq@.len() as int,
            ).net,
            wf_net(final(self)@),
    {
        let ghost n0 = old(self)@;
        let ghost inputs = vecs_view(seq@);
        let ghost answers = vecs_view(ans@);

        let mut update: Update = Update::new(
            self.input_size,
            self.output_size,
            &self.units_by_layer,
            batch,
        );
        proof {
            assert(update@.hidden =~= fresh_update(n0, batch as int).hidden);
            assert(update@.recurrence =~= fresh_update(n0, batch as int).recurrence);
            assert(update@.biases =~= fresh_update(n0, batch as int).biases);
            assert(update@ == fresh_update(n0, batch as int));
        }
        let mut prev_activations: Vec<Vec<Fixed>> = Vec::new();
        let steps = seq.len();
        let mut t: usize = 0;
        proof {
            assert(vecs_view(prev_activations@) =~= Seq::<Seq<int>>::empty());
        }
        while t < steps
            invariant
                0 <= t <= steps,
                steps == seq@.len(),
                inputs == vecs_view(seq@),
                answers == vecs_view(ans@),
                inputs.len() == steps,
                answers.len() >= steps,
                wf_net(n0),
                forall|k: int| 0 <= k < steps ==> (#[trigger] seq@[k])@.len() == n0.input_size,
                forall|k: int| 0 <= k < steps ==> (#[trigger] ans@[k])@.len() == n0.output_size,
                self@ == train_states(n0, inputs, answers, batch as int, t as int).net,
                update@ == train_states(n0, inputs, answers, batch as int, t as int).upd,
                vecs_view(prev_activations@) == train_states(
                    n0,
                    inputs,
                    answers,
                    batch as int,
                    t as int,
                ).prev,
                wf_net(self@),
                self@.layers == n0.layers,
                self@.input_size == n0.input_size,
                self@.output_size == n0.output_size,
                self@.units == n0.units,
                update_matches(self@, update@),
                update@.max_batch_size == batch as int,
                update@.batch_count == 0 || update@.batch_count < update@.max_batch_size,
                prev_ok(self@, vecs_view(prev_activations@)),
                prev_activations@.len() == vecs_view(prev_activations@).len(),
                forall|k: int|
                    0 <= k < prev_activations@.len() ==> vals((#[trigger] prev_activations@[k])@)
                        == vecs_view(prev_activations@)[k],
            decreases steps - t,
        {
            let ghost s_pre = train_states(n0, inputs, answers, batch as int, t as int);
            proof {
                assert(vals(seq@[t as int]@) == inputs[t as int]);
                assert(vals(ans@[t as int]@) == answers[t as int]);
            }
            let input = copy_vec(&seq[t]);
            let (output, activations, raw) = self.feedforward(input, &prev_activations);
            proof {
                assert(raws_ok(self@, vecs_view(raw@))) by {
                    assert(vecs_view(raw@) == raws_list(self@, inputs[t as int], s_pre.prev));
                    assert forall|k: int| 1 <= k <= self@.layers + 1 implies (
                    #[trigger] vecs_view(raw@)[k]).len() == dim_out(
                        self@.output_size,
                        self@.units,
                        k - 1,
                    ) by {
                        lemma_forward_lens(self@, inputs[t as int], s_pre.prev, k - 1);
                    }
                }
            }
            let answer = &ans[t];
            self.add_update(&mut update, output, answer, &activations, &prev_activations, &raw);
            let ghost g = step_grads(
                self@,
                answers[t as int],
                output_of(self@, inputs[t as int], s_pre.prev),
                acts_list(self@, inputs[t as int], s_pre.prev),
                s_pre.prev,
                raws_list(self@, inputs[t as int], s_pre.prev),
            );
            proof {
                assert(update@ == combined(s_pre.upd, g));
                assert forall|j: int| 0 <= j < self@.layers + 1 implies (
                #[trigger] update@.hidden[j]).vals.len() == self@.hidden[j].vals.len() by {
                    assert(update@.hidden[j].vals.len() == s_pre.upd.hidden[j].vals.len());
                }
            }
            if update.should_update() {
                self.process_update(&mut update, Fixed::from_raw(LEARNING_RATE_RAW));
            }
            prev_activations = activations;
            t = t + 1;
            proof {
                let s_post = train_states(n0, inputs, answers, batch as int, t as int);
                assert(s_post == train_step(s_pre, inputs[t - 1], answers[t - 1]));
                assert(self@ == s_post.net);
                assert(update@ == s_post.upd);
                assert(vecs_view(prev_activations@) == s_post.prev);
                assert(wf_acts(s_pre.net, vecs_view(prev_activations@)));
                assert(prev_ok(self@, vecs_view(prev_activations@)));
            }
        }
        proof {
            assert(t as int == steps as int);
        }
    }

    /// The outputs for a whole input sequence: each timestep's activations
    /// become the next timestep's recurrent history; the first timestep has
    /// none. The outputs are a pure function of the inputs and the current
    /// parameters.
    pub fn predict(&self, seq: Vec<Vec<Fixed>>) -> (out: Vec<Vec<Fixed>>)
        requires
            wf_net(self@),
            forall|t: int| 0 <= t < seq@.len() ==> (#[trigger] seq@[t])@.len() == self@.input_size,
        ensures
            vecs_view(out@) == predict_outputs(self@, vecs_view(seq@)),
            out@.len() == seq@.len(),
    {
        let ghost n = self@;
        let ghost inputs = vecs_view(seq@);
        let mut output_seq: Vec<Vec<Fixed>> = Vec::new();
        let mut prev_activations: Vec<Vec<Fixed>> = Vec::new();
        let steps = seq.len();
        let mut t: usize = 0;
        proof {
            assert(vecs_view(prev_activations@) =~= prev_after(n, inputs, 0));
        }
        while t < steps
            invariant
                0 <= t <= steps,
                n == self@,
                wf_net(n),
                steps == seq@.len(),
                inputs == vecs_view(seq@),
                inputs.len() == steps,
                forall|k: int| 0 <= k < steps ==> (#[trigger] seq@[k])@.len() == n.input_size,
                vecs_view(prev_activations@) == prev_after(n, inputs, t as int),
                prev_ok(n, vecs_view(prev_activations@)),
                output_seq@.len() == t,
                forall|k: int|
                    0 <= k < t ==> vals((#[trigger] output_seq@[k])@) == output_of(
                        n,
                        inputs[k],
                        prev_after(n, inputs, k),
                    ),
            decreases steps - t,
        {
            proof {
                assert(vals(seq@[t as int]@) == inputs[t as int]);
            }
            let input = copy_vec(&seq[t]);
            let (output, activations, _raw) = self.feedforward(input, &prev_activations);
            prev_activations = activations;
            output_seq.push(output);
            t = t + 1;
        }
        proof {
            assert(vecs_view(output_seq@) =~= predict_outputs(n, inputs));
        }
        output_seq
    }
}

} // verus!
