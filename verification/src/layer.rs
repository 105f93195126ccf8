//! A layer: neurons that share one input vector.

use vstd::prelude::*;
use crate::draws::Draws;
use crate::error::NetworkError;
use crate::layer_topology::{layer_parameter_count, layer_size, neuron_size};
use crate::neuron::{fires_on_equal_widths, neuron_fires, neuron_from, Neuron, NeuronView};

verus! {

/// The scalars of a layer's neurons in flattened order: neuron by neuron,
/// each as its bias followed by its weights.
pub open spec fn flatten_layer<S>(neurons: Seq<NeuronView<S>>) -> Seq<S>
    decreases neurons.len(),
{
    if neurons.len() == 0 {
        Seq::empty()
    } else {
        flatten_layer(neurons.drop_last()) + neurons.last().flat()
    }
}

/// Flattening a layer with one more neuron appends that neuron's scalars.
pub proof fn lemma_flatten_layer_push<S>(neurons: Seq<NeuronView<S>>, neuron: NeuronView<S>)
    ensures
        flatten_layer(neurons.push(neuron)) == flatten_layer(neurons) + neuron.flat(),
{
    assert(neurons.push(neuron).drop_last() =~= neurons);
}

/// The layer that the front of `flat` describes: `outputs` neurons with
/// `inputs` inputs each, one after the other, so that neuron `j` starts at
/// position `j * (inputs + 1)`.
pub open spec fn layer_from<S>(flat: Seq<S>, inputs: nat, outputs: nat) -> Seq<NeuronView<S>> {
    Seq::new(outputs, |j: int| neuron_from(flat.skip(j * neuron_size(inputs)), inputs))
}

/// Whether every neuron of the layer has exactly `width` weights, so that
/// the layer can take an input vector of that width.
pub open spec fn layer_accepts<S>(neurons: Seq<NeuronView<S>>, width: nat) -> bool {
    forall|j: int| 0 <= j < neurons.len() ==> (#[trigger] neurons[j]).weights.len() == width
}

/// Whether `outputs` is a result of the layer on `inputs`: one output per
/// neuron, in the neurons' order, each a value that `fire` may return for
/// that neuron on the shared inputs.
pub open spec fn layer_maps<S, F: Fn(S, &[S], &[S]) -> S>(
    fire: F,
    neurons: Seq<NeuronView<S>>,
    inputs: Seq<S>,
    outputs: Seq<S>,
) -> bool {
    &&& outputs.len() == neurons.len()
    &&& forall|j: int|
        0 <= j < neurons.len() ==> neuron_fires(fire, neurons[j], inputs, #[trigger] outputs[j])
}

/// An ordered list of neurons. The order is the order of the layer's outputs.
#[derive(Clone, Debug)]
pub struct Layer<S> {
    pub neurons: Vec<Neuron<S>>,
}

impl<S> View for Layer<S> {
    type V = Seq<NeuronView<S>>;

    open spec fn view(&self) -> Seq<NeuronView<S>> {
        Seq::new(self.neurons@.len(), |j: int| self.neurons@[j]@)
    }
}

impl<S: Copy> Layer<S> {
    /// A layer of the given neurons, in the given order.
    pub fn new(neurons: Vec<Neuron<S>>) -> (layer: Self)
        ensures
            layer.neurons == neurons,
    {
        Layer { neurons }
    }

    /// Whether every neuron of the layer has exactly `width` weights.
    pub fn accepts(&self, width: usize) -> (accepted: bool)
        ensures
            accepted == layer_accepts(self@, width as nat),
    {
        let mut j: usize = 0;
        while j < self.neurons.len()
            invariant
                j <= self.neurons.len(),
                forall|t: int| 0 <= t < j ==> (#[trigger] self@[t]).weights.len() == width,
            decreases self.neurons.len() - j,
        {
            if self.neurons[j].weights.len() != width {
                assert(self@[j as int].weights.len() != width);
                return false;
            }
            j += 1;
        }
        true
    }

    /// The layer's outputs for `inputs`: every neuron in order on the same
    /// inputs, one output per neuron. Every neuron has one weight per input.
    pub fn propagate<F: Fn(S, &[S], &[S]) -> S>(&self, inputs: Vec<S>, fire: &F) -> (outputs: Vec<
        S,
    >)
        requires
            layer_accepts(self@, inputs@.len()),
            fires_on_equal_widths(*fire),
        ensures
            layer_maps(*fire, self@, inputs@, outputs@),
    {
        let mut outputs: Vec<S> = Vec::new();
        let mut j: usize = 0;
        while j < self.neurons.len()
            invariant
                j <= self.neurons.len(),
                layer_accepts(self@, inputs@.len()),
                fires_on_equal_widths(*fire),
                outputs@.len() == j,
                forall|t: int|
                    0 <= t < j ==> neuron_fires(*fire, self@[t], inputs@, #[trigger] outputs@[t]),
            decreases self.neurons.len() - j,
        {
            assert(self@[j as int] == self.neurons[j as int]@);
            let output = self.neurons[j].propagate(inputs.as_slice(), fire);
            outputs.push(output);
            j += 1;
        }
        outputs
    }

    /// Builds a layer from the next `output_neurons * (input_neurons + 1)`
    /// draws, which the caller knows to be there.
    pub(crate) fn draw(draws: &mut Draws<S>, input_neurons: usize, output_neurons: usize) -> (layer:
        Self)
        requires
            old(draws).pending().len() >= layer_size(input_neurons as nat, output_neurons as nat),
        ensures
            layer@ == layer_from(old(draws).pending(), input_neurons as nat, output_neurons as nat),
            layer@.len() == output_neurons,
            layer_accepts(layer@, input_neurons as nat),
            final(draws).pending() == old(draws).pending().skip(
                layer_size(input_neurons as nat, output_neurons as nat) as int,
            ),
    {
        let ghost supply = draws.pending();
        let ghost per_neuron = neuron_size(input_neurons as nat);
        let mut neurons: Vec<Neuron<S>> = Vec::new();
        let mut j: usize = 0;
        while j < output_neurons
            invariant
                j <= output_neurons,
                per_neuron == input_neurons + 1,
                supply.len() >= output_neurons * per_neuron,
                draws.pending() == supply.skip(j * per_neuron),
                neurons@.len() == j,
                forall|t: int|
                    0 <= t < j ==> (#[trigger] neurons@[t])@ == neuron_from(
                        supply.skip(t * per_neuron),
                        input_neurons as nat,
                    ) && neurons@[t]@.weights.len() == input_neurons,
            decreases output_neurons - j,
        {
            proof {
                assert((j + 1) * per_neuron <= output_neurons * per_neuron) by (nonlinear_arith)
                    requires
                        j + 1 <= output_neurons,
                ;
                assert((j + 1) * per_neuron == j * per_neuron + per_neuron) by (nonlinear_arith);
                assert(0 <= j * per_neuron) by (nonlinear_arith);
            }
            let neuron = Neuron::draw(draws, input_neurons);
            proof {
                assert(draws.pending() =~= supply.skip((j + 1) * per_neuron));
            }
            neurons.push(neuron);
            j += 1;
        }
        let layer = Layer { neurons };
        proof {
            assert(layer@ =~= layer_from(supply, input_neurons as nat, output_neurons as nat));
        }
        layer
    }

    /// Builds a layer of `output_neurons` neurons with `input_neurons`
    /// inputs each from the next draws. Neuron 0 takes its draws first, bias
    /// before weights, then neuron 1, and so on. When fewer than
    /// `output_neurons * (input_neurons + 1)` draws are left, none is taken.
    pub fn random(draws: &mut Draws<S>, input_neurons: usize, output_neurons: usize) -> (result:
        Result<Self, NetworkError>)
        ensures
            match result {
                Ok(layer) => {
                    &&& old(draws).pending().len() >= layer_size(
                        input_neurons as nat,
                        output_neurons as nat,
                    )
                    &&& layer@ == layer_from(
                        old(draws).pending(),
                        input_neurons as nat,
                        output_neurons as nat,
                    )
                    &&& layer@.len() == output_neurons
                    &&& layer_accepts(layer@, input_neurons as nat)
                    &&& final(draws).pending() == old(draws).pending().skip(
                        layer_size(input_neurons as nat, output_neurons as nat) as int,
                    )
                },
                Err(error) => {
                    &&& old(draws).pending().len() < layer_size(
                        input_neurons as nat,
                        output_neurons as nat,
                    )
                    &&& error == NetworkError::InsufficientWeights
                    &&& final(draws).pending() == old(draws).pending()
                },
            },
    {
        let available = draws.remaining();
        match layer_parameter_count(input_neurons, output_neurons) {
            Some(needed) => {
                if available >= needed {
                    Ok(Self::draw(draws, input_neurons, output_neurons))
                } else {
                    Err(NetworkError::InsufficientWeights)
                }
            },
            None => Err(NetworkError::InsufficientWeights),
        }
    }
}

} // verus!
