//! The non-recurrent network: the same layered engine run without any
//! temporal state. Every forward pass sees an empty recurrent history, so
//! the recurrence weights never contribute and never receive a gradient;
//! what remains is a plain feedforward network with the engine's exact
//! arithmetic, training step, and batching.

use vstd::prelude::*;

verus! {

use crate::computations::{vec_mat, vec_add_s, map_act, vec_mat_mul, vec_add, apply_act, copy_vec};
use crate::configs::{ParameterConfig, WeightConfig, ActivationConfig};
use crate::fixed::Fixed;
use crate::params::{vals, vecs_view, weights_view, biases_view};
use crate::rnn::{
    RNN, NetV, wf_net, pre_at, output_of, acts_list, raws_list, raws_ok, wf_acts,
    step_grads, combined, cleared, applied_net, fresh_update, update_matches, lemma_forward_lens,
    LEARNING_RATE_RAW,
};
use crate::update::{Update, UpdateV, units_ints, dim_in, dim_out, wf_topology};

/// One non-recurrent training timestep: forward pass with no history,
/// gradients from it (the recurrence gradients are all zero), and the
/// batch applied when full.
pub open spec fn nn_train_step(n: NetV, u: UpdateV, v: Seq<int>, answer: Seq<int>) -> (NetV, UpdateV) {
    let none = Seq::<Seq<int>>::empty();
    let g = step_grads(n, answer, output_of(n, v, none), acts_list(n, v, none), none, raws_list(n, v, none));
    let u1 = combined(u, g);
    if u1.batch_count >= u1.max_batch_size {
        (applied_net(n, u1, LEARNING_RATE_RAW as int), cleared(u1))
    } else {
        (n, u1)
    }
}

/// The non-recurrent training state after the first `t` timesteps.
pub open spec fn nn_train_states(
    n0: NetV,
    inputs: Seq<Seq<int>>,
    answers: Seq<Seq<int>>,
    batch: int,
    t: int,
) -> (NetV, UpdateV)
    decreases t,
{
    if t <= 0 {
        (n0, fresh_update(n0, batch))
    } else {
        let s = nn_train_states(n0, inputs, answers, batch, t - 1);
        nn_train_step(s.0, s.1, inputs[t - 1], answers[t - 1])
    }
}

/// The pre-activation of layer `i` when the pass starts at layer 1 with
/// the given first-layer activation; no recurrent term exists here.
pub open spec fn pre_from_first(n: NetV, a: Seq<int>, i: int) -> Seq<int>
    decreases i,
{
    if i <= 1 {
        vec_add_s(vec_mat(a, n.hidden[1]), n.biases[1].vals)
    } else {
        vec_add_s(
            vec_mat(map_act(n.hidden_activation, pre_from_first(n, a, i - 1)), n.hidden[i]),
            n.biases[i].vals,
        )
    }
}

/// A feedforward network: the engine without temporal recurrence.
///
/// It is carried by the same parameter arrays as the recurrent network;
/// the recurrence weights merely never take part, since no pass ever has
/// a history.
pub struct NN {
    inner: RNN,
}

impl View for NN {
    type V = NetV;

    closed spec fn view(&self) -> NetV {
        self.inner@
    }
}

impl NN {
    /// A freshly initialized network for the given topology.
    pub fn new(params: &ParameterConfig, weights: WeightConfig, activations: &ActivationConfig) -> (net: NN)
        requires
            params.layers == params.units_by_layer@.len(),
            wf_topology(
                params.input_size as int,
                params.output_size as int,
                units_ints(params.units_by_layer@),
            ),
            weights.min_weight@ < weights.max_weight@,
            weights.min_bias@ < weights.max_bias@,
        ensures
            wf_net(net@),
            net@.layers == params.layers as int,
            net@.input_size == params.input_size as int,
            net@.output_size == params.output_size as int,
            net@.units == units_ints(params.units_by_layer@),
            net@.hidden_activation == activations.hidden,
            net@.end_activation == activations.end,
    {
        NN { inner: RNN::new(params, weights, activations) }
    }

    /// The input dimensionality.
    pub fn input_dim(&self) -> (r: usize)
        ensures
            r as int == self@.input_size,
    {
        self.inner.input_dim()
    }

    /// The output dimensionality.
    pub fn output_dim(&self) -> (r: usize)
        ensures
            r as int == self@.output_size,
    {
        self.inner.output_dim()
    }

    /// One forward pass; no recurrent history ever exists here.
    pub fn feedforward(&self, v: Vec<Fixed>) -> (r: (Vec<Fixed>, Vec<Vec<Fixed>>, Vec<Vec<Fixed>>))
        requires
            wf_net(self@),
            v@.len() == self@.input_size,
        ensures
            vals(r.0@) == output_of(self@, vals(v@), Seq::<Seq<int>>::empty()),
            vecs_view(r.1@) == acts_list(self@, vals(v@), Seq::<Seq<int>>::empty()),
            vecs_view(r.2@) == raws_list(self@, vals(v@), Seq::<Seq<int>>::empty()),
            r.0@.len() == self@.output_size,
            wf_acts(self@, vecs_view(r.1@)),
    {
        let no_history: Vec<Vec<Fixed>> = Vec::new();
        proof {
            assert(vecs_view(no_history@) =~= Seq::<Seq<int>>::empty());
        }
        self.inner.feedforward(v, &no_history)
    }

    /// The outputs for a sequence of inputs; every timestep is independent
    /// of every other.
    pub fn predict(&self, seq: Vec<Vec<Fixed>>) -> (out: Vec<Vec<Fixed>>)
        requires
            wf_net(self@),
            forall|t: int| 0 <= t < seq@.len() ==> (#[trigger] seq@[t])@.len() == self@.input_size,
        ensures
            out@.len() == seq@.len(),
            forall|t: int|
                0 <= t < out@.len() ==> vals((#[trigger] out@[t])@) == output_of(
                    self@,
                    vals(seq@[t]@),
                    Seq::<Seq<int>>::empty(),
                ),
    {
        let n = seq.len();
        let mut output_seq: Vec<Vec<Fixed>> = Vec::new();
        let mut t: usize = 0;
        while t < n
            invariant
                0 <= t <= n,
                n == seq@.len(),
                wf_net(self@),
                forall|k: int| 0 <= k < n ==> (#[trigger] seq@[k])@.len() == self@.input_size,
                output_seq@.len() == t,
                forall|k: int|
                    0 <= k < t ==> vals((#[trigger] output_seq@[k])@) == output_of(
                        self@,
                        vals(seq@[k]@),
                        Seq::<Seq<int>>::empty(),
                    ),
            decreases n - t,
        {
            let input = copy_vec(&seq[t]);
            let (output, _acts, _raw) = self.feedforward(input);
            output_seq.push(output);
            t = t + 1;
        }
        output_seq
    }

    /// The first layer alone: weighted input, bias, hidden activation.
    pub fn ff_single_layer(&self, v: Vec<Fixed>) -> (out: Vec<Fixed>)
        requires
            wf_net(self@),
            v@.len() == self@.input_size,
        ensures
            vals(out@) == map_act(
                self@.hidden_activation,
                pre_at(self@, vals(v@), Seq::<Seq<int>>::empty(), 0),
            ),
            out@.len() == self@.units[0],
    {
        let ghost n = self@;
        let hws = self.inner.hidden_ref();
        let bs = self.inner.biases_ref();
        proof {
            assert(weights_view(hws@)[0] == hws@[0]@);
            assert(biases_view(bs@)[0] == bs@[0]@);
        }
        let hw = &hws[0];
        let pre = vec_mat_mul(&v, hw);
        let pre = vec_add(&pre, bs[0].get_row_vector());
        proof {
            assert(vals(pre@) =~= pre_at(n, vals(v@), Seq::<Seq<int>>::empty(), 0));
        }
        apply_act(self.inner.hidden_activation_of(), &pre)
    }

    /// The rest of the network: take a first-layer activation and run the
    /// remaining layers through to the output activation.
    pub fn ff_from_first(&self, v: Vec<Fixed>) -> (out: Vec<Fixed>)
        requires
            wf_net(self@),
            v@.len() == self@.units[0],
        ensures
            vals(out@) == map_act(self@.end_activation, pre_from_first(self@, vals(v@), self@.layers)),
            out@.len() == self@.output_size,
    {
        let ghost n = self@;
        let ghost vv = vals(v@);
        let layers = self.inner.layers_count();
        let mut arr: Vec<Fixed> = v;
        let mut i: usize = 1;
        proof {
            lemma_pre_from_lens(n, vv, 1);
        }
        while i <= layers
            invariant
                1 <= i <= layers + 1,
                n == self@,
                wf_net(n),
                layers as int == n.layers,
                layers >= 1,
                vv.len() == n.units[0],
                i <= layers ==> vals(arr@) == if i == 1 {
                    vv
                } else {
                    map_act(n.hidden_activation, pre_from_first(n, vv, i - 1))
                },
                arr@.len() == dim_in(n.input_size, n.units, if i <= layers {
                    i as int
                } else {
                    layers as int
                }) || (i == layers + 1 && arr@.len() == dim_out(
                    n.output_size,
                    n.units,
                    layers as int,
                )),
                i == layers + 1 ==> vals(arr@) == pre_from_first(n, vv, layers as int),
            decreases layers + 1 - i,
        {
            let hws = self.inner.hidden_ref();
            let bs = self.inner.biases_ref();
            proof {
                lemma_pre_from_lens(n, vv, i as int);
                assert(weights_view(hws@)[i as int] == hws@[i as int]@);
                assert(biases_view(bs@)[i as int] == bs@[i as int]@);
            }
            let hw = &hws[i];
            let mut pre = vec_mat_mul(&arr, hw);
            pre = vec_add(&pre, bs[i].get_row_vector());
            proof {
                assert(vals(pre@) =~= pre_from_first(n, vv, i as int));
            }
            if i < layers {
                arr = apply_act(self.inner.hidden_activation_of(), &pre);
            } else {
                arr = pre;
            }
            i = i + 1;
        }
        apply_act(self.inner.end_activation_of(), &arr)
    }

    /// First-layer outputs for a whole sequence.
    pub fn predict_first_layer(&self, seq: Vec<Vec<Fixed>>) -> (out: Vec<Vec<Fixed>>)
        requires
            wf_net(self@),
            forall|t: int| 0 <= t < seq@.len() ==> (#[trigger] seq@[t])@.len() == self@.input_size,
        ensures
            out@.len() == seq@.len(),
            forall|t: int|
                0 <= t < out@.len() ==> vals((#[trigger] out@[t])@) == map_act(
                    self@.hidden_activation,
                    pre_at(self@, vals(seq@[t]@), Seq::<Seq<int>>::empty(), 0),
                ),
    {
        let n = seq.len();
        let mut output_seq: Vec<Vec<Fixed>> = Vec::new();
        let mut t: usize = 0;
        while t < n
            invariant
                0 <= t <= n,
                n == seq@.len(),
                wf_net(self@),
                forall|k: int| 0 <= k < n ==> (#[trigger] seq@[k])@.len() == self@.input_size,
                output_seq@.len() == t,
                forall|k: int|
                    0 <= k < t ==> vals((#[trigger] output_seq@[k])@) == map_act(
                        self@.hidden_activation,
                        pre_at(self@, vals(seq@[k]@), Seq::<Seq<int>>::empty(), 0),
                    ),
            decreases n - t,
        {
            let input = copy_vec(&seq[t]);
            let output = self.ff_single_layer(input);
            output_seq.push(output);
            t = t + 1;
        }
        output_seq
    }

    /// Remaining-layer outputs for a whole sequence of first-layer
    /// activations.
    pub fn first_layer_input(&self, seq: Vec<Vec<Fixed>>) -> (out: Vec<Vec<Fixed>>)
        requires
            wf_net(self@),
            forall|t: int| 0 <= t < seq@.len() ==> (#[trigger] seq@[t])@.len() == self@.units[0],
        ensures
            out@.len() == seq@.len(),
            forall|t: int|
                0 <= t < out@.len() ==> vals((#[trigger] out@[t])@) == map_act(
                    self@.end_activation,
                    pre_from_first(self@, vals(seq@[t]@), self@.layers),
                ),
    {
        let n = seq.len();
        let mut output_seq: Vec<Vec<Fixed>> = Vec::new();
        let mut t: usize = 0;
        while t < n
            invariant
                0 <= t <= n,
                n == seq@.len(),
                wf_net(self@),
                forall|k: int| 0 <= k < n ==> (#[trigger] seq@[k])@.len() == self@.units[0],
                output_seq@.len() == t,
                forall|k: int|
                    0 <= k < t ==> vals((#[trigger] output_seq@[k])@) == map_act(
                        self@.end_activation,
                        pre_from_first(self@, vals(seq@[k]@), self@.layers),
                    ),
            decreases n - t,
        {
            let input = copy_vec(&seq[t]);
            let output = self.ff_from_first(input);
            output_seq.push(output);
            t = t + 1;
        }
        output_seq
    }

    /// The save text of the network's parameter container. The layout is
    /// the recurrent container's: the unused recurrence matrices are
    /// saved and restored along with everything else.
    pub fn to_save(&self) -> (out: Vec<u8>)
        requires
            wf_net(self@),
        ensures
            out@ == crate::rnn::save_text(self@),
    {
        self.inner.to_save()
    }

    /// Parse save data as a feedforward network.
    pub fn from_save(data: &[u8]) -> (r: Result<NN, crate::rnn::LoadError>)
        ensures
            match r {
                Ok(net) => crate::rnn::parse_save(data@) == Some(net@) && wf_net(net@),
                Err(e) => crate::rnn::parse_save(data@) is None && e
                    == crate::rnn::LoadError::Malformed,
            },
    {
        match RNN::from_save(data) {
            Ok(inner) => Ok(NN { inner }),
            Err(e) => Err(e),
        }
    }

    /// Derive one history-free timestep's gradients from its cached
    /// forward pass and add them into the accumulator. The recurrence
    /// sums receive zero.
    pub fn add_update(
        &self,
        grad: &mut Update,
        output: Vec<Fixed>,
        answer: &Vec<Fixed>,
        act: &Vec<Vec<Fixed>>,
        raw: &Vec<Vec<Fixed>>,
    )
        requires
            wf_net(self@),
            output@.len() == self@.output_size,
            answer@.len() == self@.output_size,
            wf_acts(self@, vecs_view(act@)),
            raws_ok(self@, vecs_view(raw@)),
            update_matches(self@, old(grad)@),
            old(grad)@.batch_count < usize::MAX,
        ensures
            final(grad)@ == combined(
                old(grad)@,
                step_grads(
                    self@,
                    vals(answer@),
                    vals(output@),
                    vecs_view(act@),
                    Seq::<Seq<int>>::empty(),
                    vecs_view(raw@),
                ),
            ),
    {
        let no_history: Vec<Vec<Fixed>> = Vec::new();
        proof {
            assert(vecs_view(no_history@) =~= Seq::<Seq<int>>::empty());
        }
        self.inner.add_update(grad, output, answer, act, &no_history, raw);
    }

    /// Train on a sequence of independent samples: each timestep's
    /// gradients come from a history-free forward pass, and a batch is
    /// applied whenever `batch` contributions have accumulated. The
    /// recurrence gradients of such a pass are all zero, so the unused
    /// recurrence parameters never move.
    #[verifier::rlimit(80)]
    pub fn predict_and_update(&mut self, seq: Vec<Vec<Fixed>>, ans: &Vec<Vec<Fixed>>, batch: usize)
        requires
            wf_net(old(self)@),
            forall|t: int|
                0 <= t < seq@.len() ==> (#[trigger] seq@[t])@.len() == old(self)@.input_size,
            ans@.len() >= seq@.len(),
            forall|t: int|
                0 <= t < seq@.len() ==> (#[trigger] ans@[t])@.len() == old(self)@.output_size,
        ensures
            final(self)@ == nn_train_states(
                old(self)@,
                vecs_view(seq@),
                vecs_view(ans@),
                batch as int,
                seq@.len() as int,
            ).0,
            wf_net(final(self)@),
    {
        let ghost n0 = old(self)@;
        let ghost inputs = vecs_view(seq@);
        let ghost answers = vecs_view(ans@);

        let mut update: Update = Update::new(
            self.inner.input_dim(),
            self.inner.output_dim(),
            self.inner.units_ref(),
            batch,
        );
        proof {
            assert(update@.hidden =~= fresh_update(n0, batch as int).hidden);
            assert(update@.recurrence =~= fresh_update(n0, batch as int).recurrence);
            assert(update@.biases =~= fresh_update(n0, batch as int).biases);
            assert(update@ == fresh_update(n0, batch as int));
        }
        let no_history: Vec<Vec<Fixed>> = Vec::new();
        proof {
            assert(vecs_view(no_history@) =~= Seq::<Seq<int>>::empty());
        }
        let steps = seq.len();
        let mut t: usize = 0;
        while t < steps
            invariant
                0 <= t <= steps,
                steps == seq@.len(),
                inputs == vecs_view(seq@),
                answers == vecs_view(ans@),
                inputs.len() == steps,
                answers.len() >= steps,
                wf_net(n0),
                forall|k: int| 0 <= k < steps ==> (#[trigger] seq@[k])@.len() == n0.input_size,
                forall|k: int| 0 <= k < steps ==> (#[trigger] ans@[k])@.len() == n0.output_size,
                vecs_view(no_history@) == Seq::<Seq<int>>::empty(),
                no_history@.len() == 0,
                self@ == nn_train_states(n0, inputs, answers, batch as int, t as int).0,
                update@ == nn_train_states(n0, inputs, answers, batch as int, t as int).1,
                wf_net(self@),
                self@.layers == n0.layers,
                self@.input_size == n0.input_size,
                self@.output_size == n0.output_size,
                self@.units == n0.units,
                update_matches(self@, update@),
                update@.max_batch_size == batch as int,
                update@.batch_count == 0 || update@.batch_count < update@.max_batch_size,
            decreases steps - t,
        {
            let ghost s_pre = nn_train_states(n0, inputs, answers, batch as int, t as int);
            proof {
                assert(vals(seq@[t as int]@) == inputs[t as int]);
                assert(vals(ans@[t as int]@) == answers[t as int]);
            }
            let input = copy_vec(&seq[t]);
            let (output, activations, raw) = self.inner.feedforward(input, &no_history);
            proof {
                assert(raws_ok(self@, vecs_view(raw@))) by {
                    assert(vecs_view(raw@) == raws_list(
                        self@,
                        inputs[t as int],
                        Seq::<Seq<int>>::empty(),
                    ));
                    assert forall|k: int| 1 <= k <= self@.layers + 1 implies (
                    #[trigger] vecs_view(raw@)[k]).len() == dim_out(
                        self@.output_size,
                        self@.units,
                        k - 1,
                    ) by {
                        lemma_forward_lens(
                            self@,
                            inputs[t as int],
                            Seq::<Seq<int>>::empty(),
                            k - 1,
                        );
                    }
                }
            }
            let answer = &ans[t];
            self.inner.add_update(
                &mut update,
                output,
                answer,
                &activations,
                &no_history,
                &raw,
            );
            let ghost g = step_grads(
                self@,
                answers[t as int],
                output_of(self@, inputs[t as int], Seq::<Seq<int>>::empty()),
                acts_list(self@, inputs[t as int], Seq::<Seq<int>>::empty()),
                Seq::<Seq<int>>::empty(),
                raws_list(self@, inputs[t as int], Seq::<Seq<int>>::empty()),
            );
            proof {
                assert(update@ == combined(s_pre.1, g));
                assert forall|j: int| 0 <= j < self@.layers + 1 implies (
                #[trigger] update@.hidden[j]).vals.len() == self@.hidden[j].vals.len() by {
                    assert(update@.hidden[j].vals.len() == s_pre.1.hidden[j].vals.len());
                }
            }
            if update.should_update() {
                self.inner.process_update(&mut update, Fixed::from_raw(LEARNING_RATE_RAW));
            }
            t = t + 1;
            proof {
                let s_post = nn_train_states(n0, inputs, answers, batch as int, t as int);
                assert(s_post == nn_train_step(s_pre.0, s_pre.1, inputs[t - 1], answers[t - 1]));
                assert(self@ == s_post.0);
                assert(update@ == s_post.1);
            }
        }
    }
}

/// The pre-activations of a from-first-layer pass have their layers'
/// output widths.
pub proof fn lemma_pre_from_lens(n: NetV, a: Seq<int>, i: int)
    requires
        wf_net(n),
        1 <= i <= n.layers,
    ensures
        pre_from_first(n, a, i).len() == dim_out(n.output_size, n.units, i),
        i > 1 ==> map_act(n.hidden_activation, pre_from_first(n, a, i - 1)).len() == dim_in(
            n.input_size,
            n.units,
            i,
        ),
    decreases i,
{
    if i > 1 {
        lemma_pre_from_lens(n, a, i - 1);
    }
}

} // verus!
