//! The update accumulator: running sums of per-timestep gradients, shaped
//! exactly like the network's parameters, and the batch counter that
//! decides when a parameter update is due.

use vstd::prelude::*;

verus! {

use crate::computations::{vec_add_s, zero_mat};
use crate::params::{
    Weight, Bias, WeightV, BiasV, weights_view, biases_view,
};

/// Per-layer unit counts as unbounded integers.
pub open spec fn units_ints(units: Seq<usize>) -> Seq<int> {
    units.map_values(|u: usize| u as int)
}

/// The input width of layer `i`: the network input for the first layer,
/// else the previous layer's unit count.
pub open spec fn dim_in(input_size: int, units: Seq<int>, i: int) -> int {
    if i == 0 {
        input_size
    } else {
        units[i - 1]
    }
}

/// The output width of layer `i`: the network output for the last layer,
/// else that layer's unit count.
pub open spec fn dim_out(output_size: int, units: Seq<int>, i: int) -> int {
    if i == units.len() {
        output_size
    } else {
        units[i]
    }
}

/// A topology the machine can hold: positive dimensions, at least one
/// hidden layer, and every parameter array's entry count within address
/// range.
pub open spec fn wf_topology(input_size: int, output_size: int, units: Seq<int>) -> bool {
    &&& 1 <= input_size <= usize::MAX
    &&& 1 <= output_size <= usize::MAX
    &&& 1 <= units.len() < usize::MAX
    &&& forall|i: int| 0 <= i < units.len() ==> 1 <= #[trigger] units[i] <= usize::MAX
    &&& forall|i: int|
        0 <= i <= units.len() ==> #[trigger] dim_in(input_size, units, i) * dim_out(
            output_size,
            units,
            i,
        ) <= usize::MAX
    &&& forall|i: int| 0 <= i < units.len() ==> #[trigger] units[i] * units[i] <= usize::MAX
}

/// The zero bias of length `n`.
pub open spec fn zero_bias(n: int) -> BiasV {
    BiasV { vals: Seq::new(n as nat, |i: int| 0) }
}

/// The same matrix shape with every entry zero.
pub open spec fn zeroed_w(w: WeightV) -> WeightV {
    WeightV { rows: w.rows, cols: w.cols, vals: Seq::new(w.vals.len(), |i: int| 0int) }
}

/// The same bias length with every entry zero.
pub open spec fn zeroed_b(b: BiasV) -> BiasV {
    BiasV { vals: Seq::new(b.vals.len(), |i: int| 0int) }
}

/// Two matrices of the same shape.
pub open spec fn same_shape_w(a: WeightV, b: WeightV) -> bool {
    &&& a.rows == b.rows
    &&& a.cols == b.cols
    &&& a.vals.len() == b.vals.len()
}

/// Two bias vectors of the same length.
pub open spec fn same_shape_b(a: BiasV, b: BiasV) -> bool {
    a.vals.len() == b.vals.len()
}

/// The mathematical content of an update accumulator.
pub ghost struct UpdateV {
    pub batch_count: int,
    pub max_batch_size: int,
    pub hidden: Seq<WeightV>,
    pub recurrence: Seq<WeightV>,
    pub biases: Seq<BiasV>,
}

/// The running gradient sums for one training call.
///
/// The accumulator holds one sum per hidden-weight matrix, one per
/// recurrence-weight matrix, and one per bias vector, plus the count of
/// gradient contributions taken since the last applied batch.
pub struct Update {
    batch_count: usize,
    max_batch_size: usize,
    hidden_update: Vec<Weight>,
    recurrence_update: Vec<Weight>,
    biases_update: Vec<Bias>,
}

impl View for Update {
    type V = UpdateV;

    closed spec fn view(&self) -> UpdateV {
        UpdateV {
            batch_count: self.batch_count as int,
            max_batch_size: self.max_batch_size as int,
            hidden: weights_view(self.hidden_update@),
            recurrence: weights_view(self.recurrence_update@),
            biases: biases_view(self.biases_update@),
        }
    }
}

impl Update {
    /// A fresh accumulator for the given topology: every sum zero-filled
    /// and shaped exactly like the network's parameter arrays, and the
    /// batch counter at zero.
    pub fn new(
        input_size: usize,
        output_size: usize,
        units_by_layer: &Vec<usize>,
        max_batch_size: usize,
    ) -> (u: Update)
        requires
            wf_topology(input_size as int, output_size as int, units_ints(units_by_layer@)),
        ensures
            u@.batch_count == 0,
            u@.max_batch_size == max_batch_size as int,
            zero_sums_for(u@, input_size as int, output_size as int, units_ints(units_by_layer@)),
    {
        let ghost units = units_ints(units_by_layer@);
        let layers = units_by_layer.len();
        let mut hidden_update: Vec<Weight> = Vec::new();
        let mut recurrence_update: Vec<Weight> = Vec::new();
        let mut biases_update: Vec<Bias> = Vec::new();
        let mut i: usize = 0;
        proof {
            assert(forall|k: int| 0 <= k < units.len() ==> units[k] == units_by_layer@[k] as int);
        }
        while i <= layers
            invariant
                0 <= i <= layers + 1,
                layers == units_by_layer@.len(),
                layers < usize::MAX,
                units == units_ints(units_by_layer@),
                units.len() == layers,
                forall|k: int| 0 <= k < units.len() ==> units[k] == units_by_layer@[k] as int,
                wf_topology(input_size as int, output_size as int, units),
                hidden_update@.len() == i,
                biases_update@.len() == i,
                recurrence_update@.len() == if i <= layers {
                    i as int
                } else {
                    layers as int
                },
                forall|k: int|
                    0 <= k < i ==> (#[trigger] hidden_update@[k])@ == zero_mat(
                        dim_in(input_size as int, units, k),
                        dim_out(output_size as int, units, k),
                    ),
                forall|k: int|
                    0 <= k < i && k < layers ==> (#[trigger] recurrence_update@[k])@ == zero_mat(
                        units[k],
                        units[k],
                    ),
                forall|k: int|
                    0 <= k < i ==> (#[trigger] biases_update@[k])@ == zero_bias(
                        dim_out(output_size as int, units, k),
                    ),
            decreases layers + 1 - i,
        {
            let dim1: usize;
            let dim2: usize;
            if i == 0 {
                dim1 = input_size;
            } else {
                dim1 = units_by_layer[i - 1];
            }
            if i == layers {
                dim2 = output_size;
            } else {
                dim2 = units_by_layer[i];
            }
            proof {
                assert(dim1 as int == dim_in(input_size as int, units, i as int));
                assert(dim2 as int == dim_out(output_size as int, units, i as int));
            }
            let w = Weight::zeros(dim1, dim2);
            proof {
                assert(w@.vals =~= zero_mat(dim1 as int, dim2 as int).vals);
                assert(w@ == zero_mat(dim1 as int, dim2 as int));
            }
            hidden_update.push(w);
            if i != layers {
                let r = Weight::zeros(dim2, dim2);
                proof {
                    assert(r@.vals =~= zero_mat(dim2 as int, dim2 as int).vals);
                    assert(r@ == zero_mat(dim2 as int, dim2 as int));
                }
                recurrence_update.push(r);
            }
            let b = Bias::zeros(dim2);
            proof {
                assert(b@.vals =~= zero_bias(dim2 as int).vals);
                assert(b@ == zero_bias(dim2 as int));
            }
            biases_update.push(b);
            i = i + 1;
        }
        let u = Update {
            batch_count: 0,
            max_batch_size,
            hidden_update,
            recurrence_update,
            biases_update,
        };
        proof {
            assert(forall|k: int|
                0 <= k < u@.hidden.len() ==> #[trigger] u@.hidden[k] == hidden_update@[k]@);
            assert(forall|k: int|
                0 <= k < u@.recurrence.len() ==> #[trigger] u@.recurrence[k]
                    == recurrence_update@[k]@);
            assert(forall|k: int|
                0 <= k < u@.biases.len() ==> #[trigger] u@.biases[k] == biases_update@[k]@);
        }
        u
    }

    /// Whether a full batch of gradient contributions has been taken.
    pub fn should_update(&self) -> (r: bool)
        ensures
            r == (self@.batch_count >= self@.max_batch_size),
    {
        self.batch_count >= self.max_batch_size
    }

    /// The accumulated hidden-weight sums.
    pub fn get_hidden_update(&self) -> (r: &Vec<Weight>)
        ensures
            weights_view(r@) == self@.hidden,
    {
        &self.hidden_update
    }

    /// The accumulated recurrence-weight sums.
    pub fn get_recurrence_update(&self) -> (r: &Vec<Weight>)
        ensures
            weights_view(r@) == self@.recurrence,
    {
        &self.recurrence_update
    }

    /// The accumulated bias sums.
    pub fn get_biases_update(&self) -> (r: &Vec<Bias>)
        ensures
            biases_view(r@) == self@.biases,
    {
        &self.biases_update
    }

    /// Add one timestep's gradients into the running sums and count the
    /// contribution. Every array's shape must match the accumulator's
    /// corresponding array exactly.
    pub fn combine_update(&mut self, hidden: Vec<Weight>, recurrence: Vec<Weight>, biases: Vec<Bias>)
        requires
            old(self)@.batch_count < usize::MAX,
            hidden@.len() == old(self)@.hidden.len(),
            recurrence@.len() == old(self)@.recurrence.len(),
            biases@.len() == old(self)@.biases.len(),
            forall|i: int|
                0 <= i < hidden@.len() ==> same_shape_w(
                    #[trigger] weights_view(hidden@)[i],
                    old(self)@.hidden[i],
                ),
            forall|i: int|
                0 <= i < recurrence@.len() ==> same_shape_w(
                    #[trigger] weights_view(recurrence@)[i],
                    old(self)@.recurrence[i],
                ),
            forall|i: int|
                0 <= i < biases@.len() ==> same_shape_b(
                    #[trigger] biases_view(biases@)[i],
                    old(self)@.biases[i],
                ),
        ensures
            final(self)@.batch_count == old(self)@.batch_count + 1,
            final(self)@.max_batch_size == old(self)@.max_batch_size,
            final(self)@.hidden.len() == old(self)@.hidden.len(),
            final(self)@.recurrence.len() == old(self)@.recurrence.len(),
            final(self)@.biases.len() == old(self)@.biases.len(),
            forall|i: int|
                0 <= i < old(self)@.hidden.len() ==> #[trigger] final(self)@.hidden[i]
                    == (WeightV {
                    rows: old(self)@.hidden[i].rows,
                    cols: old(self)@.hidden[i].cols,
                    vals: vec_add_s(old(self)@.hidden[i].vals, weights_view(hidden@)[i].vals),
                }),
            forall|i: int|
                0 <= i < old(self)@.recurrence.len() ==> #[trigger] final(self)@.recurrence[i]
                    == (WeightV {
                    rows: old(self)@.recurrence[i].rows,
                    cols: old(self)@.recurrence[i].cols,
                    vals: vec_add_s(
                        old(self)@.recurrence[i].vals,
                        weights_view(recurrence@)[i].vals,
                    ),
                }),
            forall|i: int|
                0 <= i < old(self)@.biases.len() ==> #[trigger] final(self)@.biases[i] == (BiasV {
                    vals: vec_add_s(old(self)@.biases[i].vals, biases_view(biases@)[i].vals),
                }),
    {
        self.batch_count = self.batch_count + 1;
        let nh = self.hidden_update.len();
        let mut i: usize = 0;
        while i < nh
            invariant
                0 <= i <= nh,
                nh == self.hidden_update@.len(),
                hidden@.len() == nh,
                old(self).hidden_update@.len() == nh as int,
                old(self).recurrence_update@.len() == recurrence@.len(),
                old(self).biases_update@.len() == biases@.len(),
                forall|k: int|
                    0 <= k < nh ==> same_shape_w(
                        #[trigger] weights_view(hidden@)[k],
                        weights_view(old(self).hidden_update@)[k],
                    ),
                self.batch_count == old(self).batch_count + 1,
                self.max_batch_size == old(self).max_batch_size,
                self.recurrence_update@ == old(self).recurrence_update@,
                self.biases_update@ == old(self).biases_update@,
                forall|k: int|
                    i <= k < nh ==> #[trigger] self.hidden_update@[k] == old(
                        self,
                    ).hidden_update@[k],
                forall|k: int|
                    0 <= k < i ==> #[trigger] self.hidden_update@[k]@ == (WeightV {
                        rows: old(self).hidden_update@[k]@.rows,
                        cols: old(self).hidden_update@[k]@.cols,
                        vals: vec_add_s(
                            old(self).hidden_update@[k]@.vals,
                            weights_view(hidden@)[k].vals,
                        ),
                    }),
            decreases nh - i,
        {
            proof {
                assert(weights_view(hidden@)[i as int] == hidden@[i as int]@);
                assert(weights_view(old(self).hidden_update@)[i as int] == old(
                    self,
                ).hidden_update@[i as int]@);
            }
            let mut w = self.hidden_update.remove(i);
            w.accumulate(&hidden[i]);
            self.hidden_update.insert(i, w);
            i = i + 1;
        }
        let nr = self.recurrence_update.len();
        let mut i: usize = 0;
        while i < nr
            invariant
                0 <= i <= nr,
                nr == self.recurrence_update@.len(),
                recurrence@.len() == nr,
                old(self).recurrence_update@.len() == nr as int,
                old(self).hidden_update@.len() == hidden@.len(),
                old(self).biases_update@.len() == biases@.len(),
                forall|k: int|
                    0 <= k < nr ==> same_shape_w(
                        #[trigger] weights_view(recurrence@)[k],
                        weights_view(old(self).recurrence_update@)[k],
                    ),
                self.batch_count == old(self).batch_count + 1,
                self.max_batch_size == old(self).max_batch_size,
                self.hidden_update@.len() == old(self).hidden_update@.len(),
                forall|k: int|
                    0 <= k < self.hidden_update@.len() ==> #[trigger] self.hidden_update@[k]@
                        == (WeightV {
                        rows: old(self).hidden_update@[k]@.rows,
                        cols: old(self).hidden_update@[k]@.cols,
                        vals: vec_add_s(
                            old(self).hidden_update@[k]@.vals,
                            weights_view(hidden@)[k].vals,
                        ),
                    }),
                self.biases_update@ == old(self).biases_update@,
                forall|k: int|
                    i <= k < nr ==> #[trigger] self.recurrence_update@[k] == old(
                        self,
                    ).recurrence_update@[k],
                forall|k: int|
                    0 <= k < i ==> #[trigger] self.recurrence_update@[k]@ == (WeightV {
                        rows: old(self).recurrence_update@[k]@.rows,
                        cols: old(self).recurrence_update@[k]@.cols,
                        vals: vec_add_s(
                            old(self).recurrence_update@[k]@.vals,
                            weights_view(recurrence@)[k].vals,
                        ),
                    }),
            decreases nr - i,
        {
            proof {
                assert(weights_view(recurrence@)[i as int] == recurrence@[i as int]@);
                assert(weights_view(old(self).recurrence_update@)[i as int] == old(
                    self,
                ).recurrence_update@[i as int]@);
            }
            let mut w = self.recurrence_update.remove(i);
            w.accumulate(&recurrence[i]);
            self.recurrence_update.insert(i, w);
            i = i + 1;
        }
        let nb = self.biases_update.len();
        let mut i: usize = 0;
        while i < nb
            invariant
                0 <= i <= nb,
                nb == self.biases_update@.len(),
                biases@.len() == nb,
                old(self).biases_update@.len() == nb as int,
                old(self).hidden_update@.len() == hidden@.len(),
                old(self).recurrence_update@.len() == recurrence@.len(),
                forall|k: int|
                    0 <= k < nb ==> same_shape_b(
                        #[trigger] biases_view(biases@)[k],
                        biases_view(old(self).biases_update@)[k],
                    ),
                self.batch_count == old(self).batch_count + 1,
                self.max_batch_size == old(self).max_batch_size,
                self.hidden_update@.len() == old(self).hidden_update@.len(),
                forall|k: int|
                    0 <= k < self.hidden_update@.len() ==> #[trigger] self.hidden_update@[k]@
                        == (WeightV {
                        rows: old(self).hidden_update@[k]@.rows,
                        cols: old(self).hidden_update@[k]@.cols,
                        vals: vec_add_s(
                            old(self).hidden_update@[k]@.vals,
                            weights_view(hidden@)[k].vals,
                        ),
                    }),
                self.recurrence_update@.len() == old(self).recurrence_update@.len(),
                forall|k: int|
                    0 <= k < self.recurrence_update@.len() ==> #[trigger] self.recurrence_update@[k]@
                        == (WeightV {
                        rows: old(self).recurrence_update@[k]@.rows,
                        cols: old(self).recurrence_update@[k]@.cols,
                        vals: vec_add_s(
                            old(self).recurrence_update@[k]@.vals,
                            weights_view(recurrence@)[k].vals,
                        ),
                    }),
                forall|k: int|
                    i <= k < nb ==> #[trigger] self.biases_update@[k] == old(
                        self,
                    ).biases_update@[k],
                forall|k: int|
                    0 <= k < i ==> #[trigger] self.biases_update@[k]@ == (BiasV {
                        vals: vec_add_s(
                            old(self).biases_update@[k]@.vals,
                            biases_view(biases@)[k].vals,
                        ),
                    }),
            decreases nb - i,
        {
            proof {
                assert(biases_view(biases@)[i as int] == biases@[i as int]@);
                assert(biases_view(old(self).biases_update@)[i as int] == old(
                    self,
                ).biases_update@[i as int]@);
            }
            let mut b = self.biases_update.remove(i);
            b.accumulate(&biases[i]);
            self.biases_update.insert(i, b);
            i = i + 1;
        }
        proof {
            assert(forall|k: int|
                0 <= k < self.hidden_update@.len() ==> #[trigger] weights_view(
                    self.hidden_update@,
                )[k] == self.hidden_update@[k]@);
            assert(forall|k: int|
                0 <= k < self.recurrence_update@.len() ==> #[trigger] weights_view(
                    self.recurrence_update@,
                )[k] == self.recurrence_update@[k]@);
            assert(forall|k: int|
                0 <= k < self.biases_update@.len() ==> #[trigger] biases_view(
                    self.biases_update@,
                )[k] == self.biases_update@[k]@);
            assert(forall|k: int|
                0 <= k < hidden@.len() ==> #[trigger] weights_view(hidden@)[k] == hidden@[k]@);
            assert(forall|k: int|
                0 <= k < recurrence@.len() ==> #[trigger] weights_view(recurrence@)[k]
                    == recurrence@[k]@);
            assert(forall|k: int|
                0 <= k < biases@.len() ==> #[trigger] biases_view(biases@)[k] == biases@[k]@);
            assert(forall|k: int|
                0 <= k < old(self).hidden_update@.len() ==> #[trigger] weights_view(
                    old(self).hidden_update@,
                )[k] == old(self).hidden_update@[k]@);
            assert(forall|k: int|
                0 <= k < old(self).recurrence_update@.len() ==> #[trigger] weights_view(
                    old(self).recurrence_update@,
                )[k] == old(self).recurrence_update@[k]@);
            assert(forall|k: int|
                0 <= k < old(self).biases_update@.len() ==> #[trigger] biases_view(
                    old(self).biases_update@,
                )[k] == old(self).biases_update@[k]@);
        }
    }

    /// Zero every accumulated sum and reset the batch counter.
    ///
    /// The counter reset is part of the contract: without it the batch
    /// trigger would fire on every contribution after the first full
    /// batch.
    pub fn clear(&mut self)
        ensures
            final(self)@.batch_count == 0,
            final(self)@.max_batch_size == old(self)@.max_batch_size,
            final(self)@.hidden.len() == old(self)@.hidden.len(),
            final(self)@.recurrence.len() == old(self)@.recurrence.len(),
            final(self)@.biases.len() == old(self)@.biases.len(),
            forall|i: int|
                0 <= i < old(self)@.hidden.len() ==> #[trigger] final(self)@.hidden[i] == zeroed_w(
                    old(self)@.hidden[i],
                ),
            forall|i: int|
                0 <= i < old(self)@.recurrence.len() ==> #[trigger] final(self)@.recurrence[i]
                    == zeroed_w(old(self)@.recurrence[i]),
            forall|i: int|
                0 <= i < old(self)@.biases.len() ==> #[trigger] final(self)@.biases[i] == zeroed_b(
                    old(self)@.biases[i],
                ),
    {
        self.batch_count = 0;
        let nh = self.hidden_update.len();
        let mut i: usize = 0;
        while i < nh
            invariant
                0 <= i <= nh,
                nh == self.hidden_update@.len(),
                old(self).hidden_update@.len() == nh as int,
                self.recurrence_update@ == old(self).recurrence_update@,
                self.biases_update@ == old(self).biases_update@,
                self.batch_count == 0,
                self.max_batch_size == old(self).max_batch_size,
                forall|k: int|
                    i <= k < nh ==> #[trigger] self.hidden_update@[k] == old(
                        self,
                    ).hidden_update@[k],
                forall|k: int|
                    0 <= k < i ==> #[trigger] self.hidden_update@[k]@ == zeroed_w(
                        old(self).hidden_update@[k]@,
                    ),
            decreases nh - i,
        {
            let w = self.hidden_update.remove(i);
            let z = w.zeros_like();
            self.hidden_update.insert(i, z);
            i = i + 1;
        }
        let nr = self.recurrence_update.len();
        let mut i: usize = 0;
        while i < nr
            invariant
                0 <= i <= nr,
                nr == self.recurrence_update@.len(),
                old(self).recurrence_update@.len() == nr as int,
                old(self).hidden_update@.len() == nh as int,
                self.hidden_update@.len() == nh as int,
                forall|k: int|
                    0 <= k < nh ==> #[trigger] self.hidden_update@[k]@ == zeroed_w(
                        old(self).hidden_update@[k]@,
                    ),
                self.biases_update@ == old(self).biases_update@,
                self.batch_count == 0,
                self.max_batch_size == old(self).max_batch_size,
                forall|k: int|
                    i <= k < nr ==> #[trigger] self.recurrence_update@[k] == old(
                        self,
                    ).recurrence_update@[k],
                forall|k: int|
                    0 <= k < i ==> #[trigger] self.recurrence_update@[k]@ == zeroed_w(
                        old(self).recurrence_update@[k]@,
                    ),
            decreases nr - i,
        {
            let w = self.recurrence_update.remove(i);
            let z = w.zeros_like();
            self.recurrence_update.insert(i, z);
            i = i + 1;
        }
        let nb = self.biases_update.len();
        let mut i: usize = 0;
        while i < nb
            invariant
                0 <= i <= nb,
                nb == self.biases_update@.len(),
                old(self).biases_update@.len() == nb as int,
                old(self).hidden_update@.len() == nh as int,
                old(self).recurrence_update@.len() == nr as int,
                self.hidden_update@.len() == nh as int,
                forall|k: int|
                    0 <= k < nh ==> #[trigger] self.hidden_update@[k]@ == zeroed_w(
                        old(self).hidden_update@[k]@,
                    ),
                self.recurrence_update@.len() == nr as int,
                forall|k: int|
                    0 <= k < nr ==> #[trigger] self.recurrence_update@[k]@ == zeroed_w(
                        old(self).recurrence_update@[k]@,
                    ),
                self.batch_count == 0,
                self.max_batch_size == old(self).max_batch_size,
                forall|k: int|
                    i <= k < nb ==> #[trigger] self.biases_update@[k] == old(
                        self,
                    ).biases_update@[k],
                forall|k: int|
                    0 <= k < i ==> #[trigger] self.biases_update@[k]@ == zeroed_b(
                        old(self).biases_update@[k]@,
                    ),
            decreases nb - i,
        {
            let b = self.biases_update.remove(i);
            let z = b.zeros_like();
            self.biases_update.insert(i, z);
            i = i + 1;
        }
        proof {
            assert(forall|k: int|
                0 <= k < self.hidden_update@.len() ==> #[trigger] weights_view(
                    self.hidden_update@,
                )[k] == self.hidden_update@[k]@);
            assert(forall|k: int|
                0 <= k < self.recurrence_update@.len() ==> #[trigger] weights_view(
                    self.recurrence_update@,
                )[k] == self.recurrence_update@[k]@);
            assert(forall|k: int|
                0 <= k < self.biases_update@.len() ==> #[trigger] biases_view(
                    self.biases_update@,
                )[k] == self.biases_update@[k]@);
            assert(forall|k: int|
                0 <= k < old(self).hidden_update@.len() ==> #[trigger] weights_view(
                    old(self).hidden_update@,
                )[k] == old(self).hidden_update@[k]@);
            assert(forall|k: int|
                0 <= k < old(self).recurrence_update@.len() ==> #[trigger] weights_view(
                    old(self).recurrence_update@,
                )[k] == old(self).recurrence_update@[k]@);
            assert(forall|k: int|
                0 <= k < old(self).biases_update@.len() ==> #[trigger] biases_view(
                    old(self).biases_update@,
                )[k] == old(self).biases_update@[k]@);
        }
    }
}

/// Whether an accumulator's sums are all zero, shaped for the given
/// topology.
pub open spec fn zero_sums_for(u: UpdateV, input_size: int, output_size: int, units: Seq<int>) -> bool {
    &&& u.hidden.len() == units.len() + 1
    &&& u.recurrence.len() == units.len()
    &&& u.biases.len() == units.len() + 1
    &&& forall|i: int|
        0 <= i <= units.len() ==> #[trigger] u.hidden[i] == zero_mat(
            dim_in(input_size, units, i),
            dim_out(output_size, units, i),
        )
    &&& forall|i: int| 0 <= i < units.len() ==> #[trigger] u.recurrence[i] == zero_mat(units[i], units[i])
    &&& forall|i: int|
        0 <= i <= units.len() ==> #[trigger] u.biases[i] == zero_bias(dim_out(output_size, units, i))
}

} // verus!
