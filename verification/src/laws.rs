//! The engine's general laws, each proved once and for all inputs: shape
//! invariants, determinism of inference, the zero-recurrence reading of a
//! first timestep, and the batch trigger's behaviour.

use vstd::prelude::*;

verus! {

use crate::computations::{
    dot, dot_pre, col, vec_mat, vec_add_s, zero_mat,
};
use crate::fixed::{fx_add};
use crate::params::WeightV;
use crate::rnn::{
    NetV, wf_net, prev_ok, pre_at, act_at, output_of, layer_pre, with_recurrence,
    predict_outputs, prev_after, GradsV, fresh_update, combined, cleared,
};
use crate::update::{UpdateV, dim_in, dim_out, zeroed_w, zeroed_b};

/// Shape invariants: for a well-formed network, `hidden[i]` is shaped
/// `(dim_in_i, dim_out_i)` along the dimension chain from the input size
/// through the unit counts to the output size, `recurrence[i]` is square
/// on layer `i`'s units, and `biases[i]` matches layer `i`'s output width.
pub proof fn lemma_shape_invariants(n: NetV, i: int)
    requires
        wf_net(n),
        0 <= i <= n.layers,
    ensures
        n.hidden[i].rows == dim_in(n.input_size, n.units, i),
        n.hidden[i].cols == dim_out(n.output_size, n.units, i),
        n.hidden[i].vals.len() == n.hidden[i].rows * n.hidden[i].cols,
        i < n.layers ==> n.recurrence[i].rows == n.units[i] && n.recurrence[i].cols == n.units[i],
        n.biases[i].vals.len() == dim_out(n.output_size, n.units, i),
{
}

/// Determinism: the output for a single-element sequence, with no
/// recurrent history, is a pure function of the input vector and the
/// current parameters — repeated calls with fresh histories give
/// identical output.
pub proof fn lemma_predict_deterministic(n: NetV, v: Seq<int>)
    ensures
        predict_outputs(n, seq![v]) =~= seq![output_of(n, v, Seq::<Seq<int>>::empty())],
{
    assert(prev_after(n, seq![v], 0) =~= Seq::<Seq<int>>::empty());
}

/// The network with every recurrence weight replaced by the zero matrix
/// of the same shape.
pub open spec fn zero_recurrence(n: NetV) -> NetV {
    NetV {
        layers: n.layers,
        input_size: n.input_size,
        output_size: n.output_size,
        units: n.units,
        hidden: n.hidden,
        recurrence: Seq::new(n.recurrence.len(), |i: int| zero_mat(n.units[i], n.units[i])),
        biases: n.biases,
        hidden_activation: n.hidden_activation,
        end_activation: n.end_activation,
    }
}

/// A saturating dot product always lies in the scalar's raw range.
proof fn lemma_dot_pre_range(a: Seq<int>, b: Seq<int>, k: int)
    ensures
        i64::MIN <= dot_pre(a, b, k) <= i64::MAX,
    decreases k,
{
    if k > 0 {
        lemma_dot_pre_range(a, b, k - 1);
    }
}

/// A dot product against an all-zero column is zero.
proof fn lemma_dot_pre_zero(a: Seq<int>, b: Seq<int>, k: int)
    requires
        forall|i: int| 0 <= i < k ==> #[trigger] b[i] == 0,
    ensures
        dot_pre(a, b, k) == 0,
    decreases k,
{
    if k > 0 {
        lemma_dot_pre_zero(a, b, k - 1);
    }
}

/// Adding the product of anything with a zero matrix changes nothing.
proof fn lemma_zero_mat_term(base: Seq<int>, x: Seq<int>, rows: int, cols: int)
    requires
        rows >= 0,
        cols >= 0,
        forall|i: int| 0 <= i < base.len() ==> i64::MIN <= #[trigger] base[i] <= i64::MAX,
        base.len() == cols,
        x.len() <= rows,
    ensures
        vec_add_s(base, vec_mat(x, zero_mat(rows, cols))) =~= base,
{
    let z = zero_mat(rows, cols);
    assert forall|c: int| 0 <= c < cols implies #[trigger] vec_mat(x, z)[c] == 0 by {
        assert forall|r: int| 0 <= r < rows implies #[trigger] col(z, c)[r] == 0 by {
            crate::params::lemma_flat_index(rows, cols, r, c);
        }
        lemma_dot_pre_zero(x, col(z, c), x.len() as int);
        assert(dot(x, col(z, c)) == dot_pre(x, col(z, c), x.len() as int));
    }
    assert forall|c: int| 0 <= c < base.len() implies #[trigger] vec_add_s(
        base,
        vec_mat(x, z),
    )[c] == base[c] by {
        assert(vec_mat(x, z)[c] == 0);
        assert(fx_add(base[c], 0) == base[c]);
    }
}

/// Every entry of a layer pre-activation lies in the scalar's raw range.
proof fn lemma_layer_pre_range(n: NetV, a: Seq<int>, prev: Seq<Seq<int>>, i: int, c: int)
    requires
        0 <= c < layer_pre(n, a, prev, i).len(),
    ensures
        i64::MIN <= layer_pre(n, a, prev, i)[c] <= i64::MAX,
{
    let base = with_recurrence(n, prev, vec_mat(a, n.hidden[i]), i);
    assert(layer_pre(n, a, prev, i)[c] == fx_add(base[c], n.biases[i].vals[c]));
}

/// Zero-recurrence equivalence, layer by layer: with every recurrence
/// weight zero, a pass with any well-shaped history computes the same
/// pre-activations as a first-timestep pass with no history at all.
proof fn lemma_zero_rec_pre(n: NetV, v: Seq<int>, prev: Seq<Seq<int>>, i: int)
    requires
        wf_net(n),
        v.len() == n.input_size,
        prev_ok(zero_recurrence(n), prev),
        0 <= i <= n.layers,
    ensures
        pre_at(zero_recurrence(n), v, prev, i) == pre_at(n, v, Seq::<Seq<int>>::empty(), i),
    decreases i,
{
    let zn = zero_recurrence(n);
    let none = Seq::<Seq<int>>::empty();
    let a: Seq<int>;
    if i > 0 {
        lemma_zero_rec_pre(n, v, prev, i - 1);
        a = act_at(zn, v, prev, i);
        assert(a == act_at(n, v, none, i));
    } else {
        a = v;
    }
    let base = vec_mat(a, n.hidden[i]);
    assert(zn.hidden == n.hidden);
    assert forall|c: int| 0 <= c < base.len() implies i64::MIN <= #[trigger] base[c]
        <= i64::MAX by {
        lemma_dot_pre_range(a, col(n.hidden[i], c), a.len() as int);
    }
    if i + 1 < prev.len() {
        assert(zn.recurrence[i] == zero_mat(n.units[i], n.units[i]));
        lemma_zero_mat_term(base, prev[i + 1], n.units[i], n.units[i]);
        assert(base.len() == n.hidden[i].cols);
        assert(with_recurrence(zn, prev, base, i) =~= base);
    }
    assert(with_recurrence(n, none, base, i) == base);
    if i > 0 {
        assert(pre_at(zn, v, prev, i) == layer_pre(zn, a, prev, i));
        assert(pre_at(n, v, none, i) == layer_pre(n, a, none, i));
    }
    assert(layer_pre(zn, a, prev, i) =~= layer_pre(n, a, none, i));
}

/// Zero-recurrence equivalence: the first timestep of any sequence
/// produces the same output as a forward pass, with any well-shaped
/// recurrent history, through the same network with all recurrence
/// weights set to zero.
pub proof fn lemma_zero_recurrence_equivalence(n: NetV, v: Seq<int>, prev: Seq<Seq<int>>)
    requires
        wf_net(n),
        v.len() == n.input_size,
        prev_ok(zero_recurrence(n), prev),
    ensures
        output_of(zero_recurrence(n), v, prev) == output_of(n, v, Seq::<Seq<int>>::empty()),
{
    lemma_zero_rec_pre(n, v, prev, n.layers);
}

/// A list of per-timestep gradient contributions folded into an
/// accumulator, one `combine` per element.
pub open spec fn combine_many(u: UpdateV, gs: Seq<GradsV>) -> UpdateV
    decreases gs.len(),
{
    if gs.len() == 0 {
        u
    } else {
        combined(combine_many(u, gs.drop_last()), gs.last())
    }
}

/// Batch trigger: starting from a fresh accumulator, the contribution
/// count equals the number of `combine` calls, so with `batch >= 1` the
/// trigger holds after exactly `batch` calls and at no earlier point;
/// after `clear`, the count is zero and every accumulated sum is zero
/// again.
pub proof fn lemma_batch_trigger(n: NetV, batch: int, gs: Seq<GradsV>)
    requires
        gs.len() <= batch,
    ensures
        combine_many(fresh_update(n, batch), gs).batch_count == gs.len(),
        combine_many(fresh_update(n, batch), gs).max_batch_size == batch,
        (combine_many(fresh_update(n, batch), gs).batch_count >= batch) <==> (gs.len() == batch),
        cleared(combine_many(fresh_update(n, batch), gs)).batch_count == 0,
        forall|i: int|
            0 <= i < cleared(combine_many(fresh_update(n, batch), gs)).hidden.len()
                ==> #[trigger] cleared(combine_many(fresh_update(n, batch), gs)).hidden[i]
                == zeroed_w(combine_many(fresh_update(n, batch), gs).hidden[i]),
        forall|i: int|
            0 <= i < cleared(combine_many(fresh_update(n, batch), gs)).biases.len()
                ==> #[trigger] cleared(combine_many(fresh_update(n, batch), gs)).biases[i]
                == zeroed_b(combine_many(fresh_update(n, batch), gs).biases[i]),
    decreases gs.len(),
{
    if gs.len() > 0 {
        lemma_batch_trigger(n, batch, gs.drop_last());
    }
}

} // verus!
