//! Configuration data for building networks: layer counts and sizes,
//! initialization ranges, activation choices, and the converter's batch
//! settings. Pure data, validated where a network is constructed.

use vstd::prelude::*;

verus! {

use crate::activation::Activation;
use crate::fixed::Fixed;

/// Layer count and dimensionality of a network.
pub struct ParameterConfig {
    pub layers: usize,
    pub input_size: usize,
    pub output_size: usize,
    pub units_by_layer: Vec<usize>,
}

impl ParameterConfig {
    /// A configuration with the given layer count, input and output sizes,
    /// and per-layer unit counts.
    pub fn new(layers: usize, input_size: usize, output_size: usize, units_by_layer: Vec<usize>) -> (c: ParameterConfig)
        ensures
            c.layers == layers,
            c.input_size == input_size,
            c.output_size == output_size,
            c.units_by_layer@ == units_by_layer@,
    {
        ParameterConfig { layers, input_size, output_size, units_by_layer }
    }

    /// The number of hidden layers.
    pub fn layers(&self) -> (r: usize)
        ensures
            r == self.layers,
    {
        self.layers
    }

    /// The input dimensionality.
    pub fn input_size(&self) -> (r: usize)
        ensures
            r == self.input_size,
    {
        self.input_size
    }

    /// The output dimensionality.
    pub fn output_size(&self) -> (r: usize)
        ensures
            r == self.output_size,
    {
        self.output_size
    }

    /// The per-layer unit counts, borrowed.
    pub fn units_by_layer_ref(&self) -> (r: &Vec<usize>)
        ensures
            r@ == self.units_by_layer@,
    {
        &self.units_by_layer
    }

    /// The per-layer unit counts, owned.
    pub fn units_by_layer(&self) -> (r: Vec<usize>)
        ensures
            r@ == self.units_by_layer@,
    {
        let r = self.units_by_layer.clone();
        assert(r@ =~= self.units_by_layer@);
        r
    }
}

/// Initialization ranges for weights and biases.
pub struct WeightConfig {
    pub min_weight: Fixed,
    pub max_weight: Fixed,
    pub min_bias: Fixed,
    pub max_bias: Fixed,
}

impl WeightConfig {
    /// A configuration with the given weight and bias ranges.
    pub fn new(min_weight: Fixed, max_weight: Fixed, min_bias: Fixed, max_bias: Fixed) -> (c: WeightConfig)
        ensures
            c.min_weight == min_weight,
            c.max_weight == max_weight,
            c.min_bias == min_bias,
            c.max_bias == max_bias,
    {
        WeightConfig { min_weight, max_weight, min_bias, max_bias }
    }

    /// The lower weight bound.
    pub fn min_weight(&self) -> (r: Fixed)
        ensures
            r == self.min_weight,
    {
        self.min_weight
    }

    /// The upper weight bound.
    pub fn max_weight(&self) -> (r: Fixed)
        ensures
            r == self.max_weight,
    {
        self.max_weight
    }

    /// The lower bias bound.
    pub fn min_bias(&self) -> (r: Fixed)
        ensures
            r == self.min_bias,
    {
        self.min_bias
    }

    /// The upper bias bound.
    pub fn max_bias(&self) -> (r: Fixed)
        ensures
            r == self.max_bias,
    {
        self.max_bias
    }
}

/// The two activations a network is built with.
pub struct ActivationConfig {
    pub hidden: Activation,
    pub end: Activation,
}

impl ActivationConfig {
    /// A configuration with the given hidden and output activations.
    pub fn new(hidden: Activation, end: Activation) -> (c: ActivationConfig)
        ensures
            c.hidden == hidden,
            c.end == end,
    {
        ActivationConfig { hidden, end }
    }

    /// The hidden-layer activation.
    pub fn get_hidden(&self) -> (r: Activation)
        ensures
            r == self.hidden,
    {
        self.hidden
    }

    /// The output-layer activation.
    pub fn get_end(&self) -> (r: Activation)
        ensures
            r == self.end,
    {
        self.end
    }
}

/// Topology and batching for the spectrum-to-note converter.
pub struct ConverterConfig {
    pub layers: usize,
    pub units_by_layer: Vec<usize>,
    pub batch_size: usize,
}

impl ConverterConfig {
    /// A configuration with the given layer count, unit counts, and batch
    /// size.
    pub fn new(layers: usize, units_by_layer: Vec<usize>, batch_size: usize) -> (c: ConverterConfig)
        ensures
            c.layers == layers,
            c.units_by_layer@ == units_by_layer@,
            c.batch_size == batch_size,
    {
        ConverterConfig { layers, units_by_layer, batch_size }
    }

    /// The number of hidden layers.
    pub fn layers(&self) -> (r: usize)
        ensures
            r == self.layers,
    {
        self.layers
    }

    /// The per-layer unit counts, owned.
    pub fn units_by_layer(&self) -> (r: Vec<usize>)
        ensures
            r@ == self.units_by_layer@,
    {
        let r = self.units_by_layer.clone();
        assert(r@ =~= self.units_by_layer@);
        r
    }

    /// The number of gradient contributions summed before one update.
    pub fn batch_size(&self) -> (r: usize)
        ensures
            r == self.batch_size,
    {
        self.batch_size
    }
}

} // verus!
