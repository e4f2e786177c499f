//! The engine's numeric kernels: vector-matrix products, element-wise
//! maps, and the per-timestep gradient computations, each specified down
//! to the exact fixed-point value it produces.

use vstd::prelude::*;

verus! {

use crate::activation::{Activation, act_of, act_deriv};
use crate::fixed::{Fixed, fx_add, fx_sub, fx_mul, fx_neg};
use crate::params::{Weight, WeightV, entry, wf_weight, vals, lemma_flat_index};

/// The saturating dot product of the first `n` entries, accumulated in
/// ascending index order.
pub open spec fn dot_pre(a: Seq<int>, b: Seq<int>, n: int) -> int
    decreases n,
{
    if n <= 0 {
        0
    } else {
        fx_add(dot_pre(a, b, n - 1), fx_mul(a[n - 1], b[n - 1]))
    }
}

/// The saturating dot product of two equally long vectors.
pub open spec fn dot(a: Seq<int>, b: Seq<int>) -> int {
    dot_pre(a, b, a.len() as int)
}

/// Column `c` of a matrix.
pub open spec fn col(w: WeightV, c: int) -> Seq<int> {
    Seq::new(w.rows as nat, |r: int| entry(w, r, c))
}

/// Row `r` of a matrix.
pub open spec fn row(w: WeightV, r: int) -> Seq<int> {
    Seq::new(w.cols as nat, |c: int| entry(w, r, c))
}

/// The row-vector-times-matrix product.
pub open spec fn vec_mat(v: Seq<int>, w: WeightV) -> Seq<int> {
    Seq::new(w.cols as nat, |c: int| dot(v, col(w, c)))
}

/// Element-wise saturating vector addition.
pub open spec fn vec_add_s(a: Seq<int>, b: Seq<int>) -> Seq<int> {
    Seq::new(a.len(), |i: int| fx_add(a[i], b[i]))
}

/// An activation applied element-wise.
pub open spec fn map_act(a: Activation, v: Seq<int>) -> Seq<int> {
    Seq::new(v.len(), |i: int| act_of(a, v[i]))
}

/// An activation's derivative applied element-wise.
pub open spec fn map_deriv(a: Activation, v: Seq<int>) -> Seq<int> {
    Seq::new(v.len(), |i: int| act_deriv(a, v[i]))
}

/// The outer product of two vectors, as a matrix shaped `(u.len, g.len)`.
pub open spec fn outer(u: Seq<int>, g: Seq<int>) -> WeightV {
    WeightV {
        rows: u.len() as int,
        cols: g.len() as int,
        vals: Seq::new(u.len() * g.len(), |k: int| fx_mul(u[k / g.len() as int], g[k % g.len() as int])),
    }
}

/// The zero matrix of a given shape.
pub open spec fn zero_mat(rows: int, cols: int) -> WeightV {
    WeightV { rows, cols, vals: Seq::new((rows * cols) as nat, |k: int| 0) }
}

/// The loss gradient at the output layer: the negated residual scaled by
/// the output activation's derivative on the raw output.
pub open spec fn output_grad_s(output: Seq<int>, answer: Seq<int>, raw: Seq<int>, a: Activation) -> Seq<int> {
    Seq::new(output.len(), |i: int| fx_mul(fx_sub(answer[i], output[i]), fx_neg(act_deriv(a, raw[i]))))
}

/// The gradient propagated one layer back: the weight rows dotted with the
/// incoming gradient, scaled by the activation's derivative on the raw
/// input.
pub open spec fn backprop_s(w: WeightV, a: Activation, g: Seq<int>, raw_input: Seq<int>) -> Seq<int> {
    Seq::new(w.rows as nat, |j: int| fx_mul(dot(row(w, j), g), act_deriv(a, raw_input[j])))
}

/// A flat row-major index decomposes into its row and column.
proof fn lemma_flat_divmod(r: int, c: int, cols: int)
    requires
        cols > 0,
        0 <= c < cols,
        r >= 0,
    ensures
        (r * cols + c) / cols == r,
        (r * cols + c) % cols == c,
{
    vstd::arithmetic::div_mod::lemma_fundamental_div_mod_converse(r * cols + c, cols, r, c);
}

/// The row-vector-times-matrix product `v · w`.
pub fn vec_mat_mul(v: &Vec<Fixed>, w: &Weight) -> (out: Vec<Fixed>)
    requires
        wf_weight(w@),
        v@.len() == w@.rows,
    ensures
        vals(out@) == vec_mat(vals(v@), w@),
        out@.len() == w@.cols,
{
    let (rows, cols) = w.dim();
    let mut out: Vec<Fixed> = Vec::new();
    let mut c: usize = 0;
    while c < cols
        invariant
            0 <= c <= cols,
            rows as int == w@.rows,
            cols as int == w@.cols,
            wf_weight(w@),
            v@.len() == w@.rows,
            out@.len() == c,
            forall|j: int|
                0 <= j < c ==> (#[trigger] out@[j])@ == dot(vals(v@), col(w@, j)),
        decreases cols - c,
    {
        let mut acc = Fixed::zero();
        let mut k: usize = 0;
        while k < rows
            invariant
                0 <= k <= rows,
                0 <= c < cols,
                rows as int == w@.rows,
                cols as int == w@.cols,
                wf_weight(w@),
                v@.len() == w@.rows,
                acc@ == dot_pre(vals(v@), col(w@, c as int), k as int),
            decreases rows - k,
        {
            let x = v[k];
            let y = w.get(k, c);
            proof {
                assert(vals(v@)[k as int] == v@[k as int]@);
                assert(col(w@, c as int)[k as int] == entry(w@, k as int, c as int));
            }
            acc = acc.add(x.mul(y));
            k = k + 1;
        }
        proof {
            assert(vals(v@).len() == v@.len());
            assert(acc@ == dot(vals(v@), col(w@, c as int)));
        }
        out.push(acc);
        c = c + 1;
    }
    assert(vals(out@) =~= vec_mat(vals(v@), w@));
    out
}

/// An owned copy of a scalar vector.
pub fn copy_vec(v: &Vec<Fixed>) -> (out: Vec<Fixed>)
    ensures
        out@ == v@,
{
    let n = v.len();
    let mut out: Vec<Fixed> = Vec::new();
    let mut k: usize = 0;
    while k < n
        invariant
            0 <= k <= n,
            n == v@.len(),
            out@.len() == k,
            forall|i: int| 0 <= i < k ==> #[trigger] out@[i] == v@[i],
        decreases n - k,
    {
        out.push(v[k]);
        k = k + 1;
    }
    assert(out@ =~= v@);
    out
}

/// Element-wise saturating vector addition.
pub fn vec_add(a: &Vec<Fixed>, b: &Vec<Fixed>) -> (out: Vec<Fixed>)
    requires
        a@.len() == b@.len(),
    ensures
        vals(out@) == vec_add_s(vals(a@), vals(b@)),
        out@.len() == a@.len(),
{
    let n = a.len();
    let mut out: Vec<Fixed> = Vec::new();
    let mut k: usize = 0;
    while k < n
        invariant
            0 <= k <= n,
            n == a@.len() == b@.len(),
            out@.len() == k,
            forall|i: int|
                0 <= i < k ==> (#[trigger] out@[i])@ == fx_add(a@[i]@, b@[i]@),
        decreases n - k,
    {
        out.push(a[k].add(b[k]));
        k = k + 1;
    }
    assert(vals(out@) =~= vec_add_s(vals(a@), vals(b@)));
    out
}

/// An activation applied element-wise.
pub fn apply_act(a: Activation, v: &Vec<Fixed>) -> (out: Vec<Fixed>)
    ensures
        vals(out@) == map_act(a, vals(v@)),
        out@.len() == v@.len(),
{
    let n = v.len();
    let mut out: Vec<Fixed> = Vec::new();
    let mut k: usize = 0;
    while k < n
        invariant
            0 <= k <= n,
            n == v@.len(),
            out@.len() == k,
            forall|i: int|
                0 <= i < k ==> (#[trigger] out@[i])@ == act_of(a, v@[i]@),
        decreases n - k,
    {
        out.push(a.of(v[k]));
        k = k + 1;
    }
    assert(vals(out@) =~= map_act(a, vals(v@)));
    out
}

/// The loss gradient at the output layer, oriented for descent.
pub fn compute_output_grad(output: &Vec<Fixed>, answer: &Vec<Fixed>, raw: &Vec<Fixed>, end_actf: Activation) -> (g: Vec<Fixed>)
    requires
        answer@.len() == output@.len(),
        raw@.len() == output@.len(),
    ensures
        vals(g@) == output_grad_s(vals(output@), vals(answer@), vals(raw@), end_actf),
        g@.len() == output@.len(),
{
    let n = output.len();
    let mut g: Vec<Fixed> = Vec::new();
    let mut k: usize = 0;
    while k < n
        invariant
            0 <= k <= n,
            n == output@.len() == answer@.len() == raw@.len(),
            g@.len() == k,
            forall|i: int|
                0 <= i < k ==> (#[trigger] g@[i])@ == fx_mul(
                    fx_sub(answer@[i]@, output@[i]@),
                    fx_neg(act_deriv(end_actf, raw@[i]@)),
                ),
        decreases n - k,
    {
        let residual = answer[k].sub(output[k]);
        let scale = end_actf.deriv_of(raw[k]).neg();
        g.push(residual.mul(scale));
        k = k + 1;
    }
    assert(vals(g@) =~= output_grad_s(vals(output@), vals(answer@), vals(raw@), end_actf));
    g
}

/// The weight gradient for one layer: the outer product of the layer's
/// input activation and the incoming gradient, shaped like the layer's
/// weight matrix.
pub fn compute_hidden_grad(dim: (usize, usize), prev_grad: &Vec<Fixed>, input_act: &Vec<Fixed>) -> (w: Weight)
    requires
        dim.0 as int == input_act@.len(),
        dim.1 as int == prev_grad@.len(),
        dim.0 >= 1,
        dim.1 >= 1,
    ensures
        w@ == outer(vals(input_act@), vals(prev_grad@)),
        wf_weight(w@),
{
    outer_product(input_act, prev_grad)
}

/// The outer product of two vectors as a matrix.
fn outer_product(u: &Vec<Fixed>, g: &Vec<Fixed>) -> (w: Weight)
    requires
        u@.len() >= 1,
        g@.len() >= 1,
    ensures
        w@ == outer(vals(u@), vals(g@)),
        wf_weight(w@),
{
    let rows = u.len();
    let cols = g.len();
    let mut data: Vec<Fixed> = Vec::new();
    let mut r: usize = 0;
    while r < rows
        invariant
            0 <= r <= rows,
            rows == u@.len(),
            cols == g@.len(),
            cols >= 1,
            data@.len() == r * cols,
            forall|k: int|
                0 <= k < r * cols ==> (#[trigger] data@[k])@ == fx_mul(
                    vals(u@)[k / cols as int],
                    vals(g@)[k % cols as int],
                ),
        decreases rows - r,
    {
        let mut c: usize = 0;
        while c < cols
            invariant
                0 <= c <= cols,
                0 <= r < rows,
                rows == u@.len(),
                cols == g@.len(),
                data@.len() == r * cols + c,
                forall|k: int|
                    0 <= k < r * cols + c ==> (#[trigger] data@[k])@ == fx_mul(
                        vals(u@)[k / cols as int],
                        vals(g@)[k % cols as int],
                    ),
            decreases cols - c,
        {
            proof {
                lemma_flat_index(rows as int, cols as int, r as int, c as int);
                lemma_flat_divmod(r as int, c as int, cols as int);
                assert(vals(u@)[r as int] == u@[r as int]@);
                assert(vals(g@)[c as int] == g@[c as int]@);
            }
            data.push(u[r].mul(g[c]));
            c = c + 1;
        }
        proof {
            assert(r * cols + cols == (r + 1) * cols) by (nonlinear_arith);
        }
        r = r + 1;
    }
    proof {
        assert(rows * cols == u@.len() * g@.len());
    }
    let w = Weight::from_vec(rows, cols, data);
    proof {
        assert(w@.vals =~= outer(vals(u@), vals(g@)).vals);
        assert(w@ == outer(vals(u@), vals(g@)));
    }
    w
}

/// The bias gradient for one layer: the incoming gradient itself.
pub fn compute_bias_grad(prev_grad: &Vec<Fixed>) -> (g: Vec<Fixed>)
    ensures
        vals(g@) == vals(prev_grad@),
        g@.len() == prev_grad@.len(),
{
    let n = prev_grad.len();
    let mut g: Vec<Fixed> = Vec::new();
    let mut k: usize = 0;
    while k < n
        invariant
            0 <= k <= n,
            n == prev_grad@.len(),
            g@.len() == k,
            forall|i: int| 0 <= i < k ==> #[trigger] g@[i] == prev_grad@[i],
        decreases n - k,
    {
        g.push(prev_grad[k]);
        k = k + 1;
    }
    assert(vals(g@) =~= vals(prev_grad@));
    g
}

/// The recurrence-weight gradient for one layer: the outer product of the
/// previous timestep's activation and the incoming gradient, or the zero
/// matrix when no previous activation exists.
pub fn compute_recurrence_grad(dim: (usize, usize), prev_grad: &Vec<Fixed>, prev_act: Option<&Vec<Fixed>>) -> (w: Weight)
    requires
        dim.0 == dim.1,
        dim.0 >= 1,
        dim.0 * dim.1 <= usize::MAX,
        dim.1 as int == prev_grad@.len(),
        prev_act is Some ==> prev_act.unwrap()@.len() == dim.0 as int,
    ensures
        match prev_act {
            Some(act) => w@ == outer(vals(act@), vals(prev_grad@)),
            None => w@ == zero_mat(dim.0 as int, dim.1 as int),
        },
        wf_weight(w@),
{
    match prev_act {
        Some(act) => outer_product(act, prev_grad),
        None => {
            let n = dim.0;
            let mut data: Vec<Fixed> = Vec::new();
            let mut k: usize = 0;
            let count: usize = n * n;
            while k < count
                invariant
                    0 <= k <= count,
                    count as int == dim.0 as int * dim.1 as int,
                    data@.len() == k,
                    forall|i: int| 0 <= i < k ==> (#[trigger] data@[i])@ == 0,
                decreases count - k,
            {
                data.push(Fixed::zero());
                k = k + 1;
            }
            let w = Weight::from_vec(n, n, data);
            proof {
                assert(w@.vals =~= zero_mat(dim.0 as int, dim.1 as int).vals);
                assert(w@ == zero_mat(dim.0 as int, dim.1 as int));
            }
            w
        },
    }
}

/// The gradient propagated one layer back through a weight matrix.
pub fn compute_backpropogated_grad(
    hidden_layer_weights: &Weight,
    hidden_actf: Activation,
    prev_grad: Vec<Fixed>,
    raw_input: &Vec<Fixed>,
) -> (g: Vec<Fixed>)
    requires
        wf_weight(hidden_layer_weights@),
        hidden_layer_weights@.cols == prev_grad@.len(),
        hidden_layer_weights@.rows == raw_input@.len(),
    ensures
        vals(g@) == backprop_s(hidden_layer_weights@, hidden_actf, vals(prev_grad@), vals(raw_input@)),
        g@.len() == hidden_layer_weights@.rows,
{
    let w = hidden_layer_weights;
    let (rows, cols) = w.dim();
    let mut g: Vec<Fixed> = Vec::new();
    let mut j: usize = 0;
    while j < rows
        invariant
            0 <= j <= rows,
            rows as int == w@.rows,
            cols as int == w@.cols,
            wf_weight(w@),
            prev_grad@.len() == w@.cols,
            raw_input@.len() == w@.rows,
            g@.len() == j,
            forall|i: int|
                0 <= i < j ==> (#[trigger] g@[i])@ == fx_mul(
                    dot(row(w@, i), vals(prev_grad@)),
                    act_deriv(hidden_actf, raw_input@[i]@),
                ),
        decreases rows - j,
    {
        let mut acc = Fixed::zero();
        let mut k: usize = 0;
        while k < cols
            invariant
                0 <= k <= cols,
                0 <= j < rows,
                rows as int == w@.rows,
                cols as int == w@.cols,
                wf_weight(w@),
                prev_grad@.len() == w@.cols,
                acc@ == dot_pre(row(w@, j as int), vals(prev_grad@), k as int),
            decreases cols - k,
        {
            let x = w.get(j, k);
            let y = prev_grad[k];
            proof {
                assert(row(w@, j as int)[k as int] == entry(w@, j as int, k as int));
                assert(vals(prev_grad@)[k as int] == prev_grad@[k as int]@);
            }
            acc = acc.add(x.mul(y));
            k = k + 1;
        }
        proof {
            assert(row(w@, j as int).len() == w@.cols);
            assert(acc@ == dot(row(w@, j as int), vals(prev_grad@)));
        }
        let scaled = acc.mul(hidden_actf.deriv_of(raw_input[j]));
        g.push(scaled);
        j = j + 1;
    }
    assert(vals(g@) =~= backprop_s(w@, hidden_actf, vals(prev_grad@), vals(raw_input@)));
    g
}

} // verus!
