//! A network: layers chained so that each one's output is the next one's input.

use vstd::prelude::*;
use crate::draws::Draws;
use crate::error::NetworkError;
use crate::laws::{
    lemma_built_network_conforms, lemma_conforming_network_widths, lemma_flatten_undoes_build,
};
use crate::layer::{
    flatten_layer, layer_accepts, layer_from, layer_maps, lemma_flatten_layer_push, Layer,
};
use crate::layer_topology::{
    layer_count, lemma_size_before_monotonic, network_size, parameter_count, size_before, widths,
    LayerTopology,
};
use crate::neuron::{fires_on_equal_widths, NeuronView};

verus! {

/// The scalars of a network in flattened order: layer by layer, neuron by
/// neuron, each neuron as its bias followed by its weights.
pub open spec fn flatten_network<S>(layers: Seq<Seq<NeuronView<S>>>) -> Seq<S>
    decreases layers.len(),
{
    if layers.len() == 0 {
        Seq::empty()
    } else {
        flatten_network(layers.drop_last()) + flatten_layer(layers.last())
    }
}

/// Flattening a network with one more layer appends that layer's scalars.
pub proof fn lemma_flatten_network_push<S>(
    layers: Seq<Seq<NeuronView<S>>>,
    layer: Seq<NeuronView<S>>,
)
    ensures
        flatten_network(layers.push(layer)) == flatten_network(layers) + flatten_layer(layer),
{
    assert(layers.push(layer).drop_last() =~= layers);
}

/// The network that the front of `flat` describes: layer `i` has
/// `widths[i]` inputs and `widths[i + 1]` neurons and starts where the
/// layers before it end.
pub open spec fn network_from<S>(flat: Seq<S>, widths: Seq<nat>) -> Seq<Seq<NeuronView<S>>> {
    Seq::new(
        layer_count(widths),
        |i: int| layer_from(flat.skip(size_before(widths, i as nat) as int), widths[i], widths[i + 1]),
    )
}

/// The width of the vector that layer `i` is given, when the network is
/// given one of width `width`: the first layer sees the input itself, every
/// other layer sees one value per neuron of the layer before it.
pub open spec fn width_into<S>(layers: Seq<Seq<NeuronView<S>>>, width: nat, i: int) -> nat {
    if i == 0 {
        width
    } else {
        layers[i - 1].len()
    }
}

/// The width of the network's output, when it is given an input of width
/// `width`: one value per neuron of the last layer.
pub open spec fn output_width<S>(layers: Seq<Seq<NeuronView<S>>>, width: nat) -> nat {
    width_into(layers, width, layers.len() as int)
}

/// Whether the network can take an input vector of width `width`: every
/// neuron of every layer has one weight per value that its layer is given.
pub open spec fn network_accepts<S>(layers: Seq<Seq<NeuronView<S>>>, width: nat) -> bool {
    forall|i: int|
        0 <= i < layers.len() ==> layer_accepts(#[trigger] layers[i], width_into(layers, width, i))
}

/// Whether the network has the shape that `widths` describes: one layer for
/// every pair of neighbouring widths, with `widths[i + 1]` neurons of
/// `widths[i]` weights each in layer `i`.
pub open spec fn network_conforms<S>(layers: Seq<Seq<NeuronView<S>>>, widths: Seq<nat>) -> bool {
    &&& layers.len() == layer_count(widths)
    &&& forall|i: int|
        0 <= i < layers.len() ==> (#[trigger] layers[i]).len() == widths[i + 1] && layer_accepts(
            layers[i],
            widths[i],
        )
}

/// Whether `outputs` is a result of the network on `inputs`: the inputs
/// themselves where there is no layer, and otherwise a result of the last
/// layer on a result of the layers before it.
pub open spec fn network_maps<S, F: Fn(S, &[S], &[S]) -> S>(
    fire: F,
    layers: Seq<Seq<NeuronView<S>>>,
    inputs: Seq<S>,
    outputs: Seq<S>,
) -> bool
    decreases layers.len(),
{
    if layers.len() == 0 {
        outputs == inputs
    } else {
        exists|hidden: Seq<S>|
            network_maps(fire, layers.drop_last(), inputs, hidden) && #[trigger] layer_maps(
                fire,
                layers.last(),
                hidden,
                outputs,
            )
    }
}

/// An ordered list of layers.
#[derive(Clone, Debug)]
pub struct Network<S> {
    pub layers: Vec<Layer<S>>,
}

impl<S> View for Network<S> {
    type V = Seq<Seq<NeuronView<S>>>;

    open spec fn view(&self) -> Seq<Seq<NeuronView<S>>> {
        Seq::new(self.layers@.len(), |i: int| self.layers@[i]@)
    }
}

impl<S: Copy> Network<S> {
    /// A network of the given layers, in the given order.
    pub fn new(layers: Vec<Layer<S>>) -> (network: Self)
        ensures
            network.layers == layers,
    {
        Network { layers }
    }

    /// Whether the network can take an input vector of width `width`.
    pub fn accepts(&self, width: usize) -> (accepted: bool)
        ensures
            accepted == network_accepts(self@, width as nat),
    {
        let mut expected: usize = width;
        let mut i: usize = 0;
        while i < self.layers.len()
            invariant
                i <= self.layers.len(),
                expected == width_into(self@, width as nat, i as int),
                forall|t: int|
                    0 <= t < i ==> layer_accepts(
                        #[trigger] self@[t],
                        width_into(self@, width as nat, t),
                    ),
            decreases self.layers.len() - i,
        {
            assert(self@[i as int] == self.layers[i as int]@);
            if !self.layers[i].accepts(expected) {
                return false;
            }
            expected = self.layers[i].neurons.len();
            i += 1;
        }
        true
    }

    /// The network's outputs for `inputs`: the inputs are given to the first
    /// layer, every layer's outputs are given to the next one, and the last
    /// layer's outputs are returned. The network can take `inputs`.
    pub fn propagate<F: Fn(S, &[S], &[S]) -> S>(&self, inputs: Vec<S>, fire: &F) -> (outputs: Vec<
        S,
    >)
        requires
            network_accepts(self@, inputs@.len()),
            fires_on_equal_widths(*fire),
        ensures
            network_maps(*fire, self@, inputs@, outputs@),
            outputs@.len() == output_width(self@, inputs@.len()),
    {
        let ghost given = inputs@;
        let mut current: Vec<S> = inputs;
        let mut i: usize = 0;
        while i < self.layers.len()
            invariant
                i <= self.layers.len(),
                network_accepts(self@, given.len()),
                fires_on_equal_widths(*fire),
                network_maps(*fire, self@.take(i as int), given, current@),
                current@.len() == width_into(self@, given.len(), i as int),
            decreases self.layers.len() - i,
        {
            let ghost hidden = current@;
            assert(self@[i as int] == self.layers[i as int]@);
            current = self.layers[i].propagate(current, fire);
            proof {
                assert(self@.take(i + 1).drop_last() =~= self@.take(i as int));
                assert(layer_maps(*fire, self@.take(i + 1).last(), hidden, current@));
            }
            i += 1;
        }
        proof {
            assert(self@.take(i as int) =~= self@);
        }
        current
    }

    /// Builds a network from the next draws, which the caller knows to be
    /// there, at least as many as the topology calls for.
    fn draw(draws: &mut Draws<S>, topology: &[LayerTopology]) -> (network: Self)
        requires
            topology.len() > 1,
            old(draws).pending().len() >= network_size(widths(topology@)),
        ensures
            network@ == network_from(old(draws).pending(), widths(topology@)),
            flatten_network(network@) == old(draws).pending().take(
                network_size(widths(topology@)) as int,
            ),
            network_conforms(network@, widths(topology@)),
            network_accepts(network@, topology[0].neurons as nat),
            final(draws).pending() == old(draws).pending().skip(
                network_size(widths(topology@)) as int,
            ),
    {
        let ghost supply = draws.pending();
        let ghost w = widths(topology@);
        let mut layers: Vec<Layer<S>> = Vec::new();
        let mut i: usize = 0;
        while i + 1 < topology.len()
            invariant
                1 < topology.len(),
                i + 1 <= topology.len(),
                w == widths(topology@),
                w.len() == topology.len(),
                supply.len() >= network_size(w),
                draws.pending() == supply.skip(size_before(w, i as nat) as int),
                layers@.len() == i,
                forall|t: int|
                    0 <= t < i ==> (#[trigger] layers@[t])@ == layer_from(
                        supply.skip(size_before(w, t as nat) as int),
                        w[t],
                        w[t + 1],
                    ),
            decreases topology.len() - i,
        {
            proof {
                lemma_size_before_monotonic(w, (i + 1) as nat, layer_count(w));
                assert(w[i as int] == topology[i as int].neurons);
                assert(w[i + 1] == topology[i + 1].neurons);
            }
            let layer = Layer::draw(draws, topology[i].neurons, topology[i + 1].neurons);
            proof {
                assert(draws.pending() =~= supply.skip(size_before(w, (i + 1) as nat) as int));
            }
            layers.push(layer);
            i += 1;
        }
        let network = Network { layers };
        proof {
            assert(network@ =~= network_from(supply, w));
            lemma_built_network_conforms(supply, w);
            lemma_conforming_network_widths(network@, w);
            lemma_flatten_undoes_build(supply, w);
        }
        network
    }

    /// Builds a network of the given topology, which has at least two
    /// entries, from the next draws. Every pair of neighbouring entries
    /// gives one layer, so `n` entries give `n - 1` layers. The draws are
    /// used in one strict order: layer by layer, within a layer neuron by
    /// neuron, and for each neuron the bias before the weights. When fewer
    /// draws are left than the topology calls for, none is taken.
    pub fn random(draws: &mut Draws<S>, topology: &[LayerTopology]) -> (result: Result<
        Self,
        NetworkError,
    >)
        requires
            topology.len() > 1,
        ensures
            match result {
                Ok(network) => {
                    &&& old(draws).pending().len() >= network_size(widths(topology@))
                    &&& network@ == network_from(old(draws).pending(), widths(topology@))
                    &&& flatten_network(network@) == old(draws).pending().take(
                        network_size(widths(topology@)) as int,
                    )
                    &&& network_conforms(network@, widths(topology@))
                    &&& network_accepts(network@, topology[0].neurons as nat)
                    &&& final(draws).pending() == old(draws).pending().skip(
                        network_size(widths(topology@)) as int,
                    )
                },
                Err(error) => {
                    &&& old(draws).pending().len() < network_size(widths(topology@))
                    &&& error == NetworkError::InsufficientWeights
                    &&& final(draws).pending() == old(draws).pending()
                },
            },
    {
        let available = draws.remaining();
        match parameter_count(topology) {
            Some(needed) => {
                if available >= needed {
                    Ok(Self::draw(draws, topology))
                } else {
                    Err(NetworkError::InsufficientWeights)
                }
            },
            None => Err(NetworkError::InsufficientWeights),
        }
    }

    /// Rebuilds a network of the given topology from its flat sequence of
    /// biases and weights, read in the order in which `weights` writes
    /// them. The topology has to have at least two entries, and the
    /// sequence has to be used up exactly.
    pub fn from_weights(topology: &[LayerTopology], weights: Vec<S>) -> (result: Result<
        Self,
        NetworkError,
    >)
        ensures
            match result {
                Ok(network) => {
                    &&& topology.len() > 1
                    &&& weights@.len() == network_size(widths(topology@))
                    &&& network@ == network_from(weights@, widths(topology@))
                    &&& flatten_network(network@) == weights@
                    &&& network_conforms(network@, widths(topology@))
                    &&& network_accepts(network@, topology[0].neurons as nat)
                },
                Err(NetworkError::InvalidTopology) => topology.len() <= 1,
                Err(NetworkError::InsufficientWeights) => {
                    &&& topology.len() > 1
                    &&& weights@.len() < network_size(widths(topology@))
                },
                Err(NetworkError::ExcessWeights) => {
                    &&& topology.len() > 1
                    &&& weights@.len() > network_size(widths(topology@))
                },
            },
    {
        if topology.len() <= 1 {
            return Err(NetworkError::InvalidTopology);
        }
        let supplied = weights.len();
        match parameter_count(topology) {
            Some(needed) => {
                if supplied < needed {
                    Err(NetworkError::InsufficientWeights)
                } else if supplied > needed {
                    Err(NetworkError::ExcessWeights)
                } else {
                    let mut draws = Draws::new(weights);
                    Ok(Self::draw(&mut draws, topology))
                }
            },
            None => Err(NetworkError::InsufficientWeights),
        }
    }

    /// All biases and weights as one flat sequence: layers in order, within
    /// a layer its neurons in order, and for each neuron the bias followed
    /// by the weights in order.
    pub fn weights(&self) -> (flat: Vec<S>)
        ensures
            flat@ == flatten_network(self@),
    {
        let mut flat: Vec<S> = Vec::new();
        let mut i: usize = 0;
        while i < self.layers.len()
            invariant
                i <= self.layers.len(),
                flat@ == flatten_network(self@.take(i as int)),
            decreases self.layers.len() - i,
        {
            let layer = &self.layers[i];
            let ghost before_layer = flat@;
            let mut j: usize = 0;
            while j < layer.neurons.len()
                invariant
                    j <= layer.neurons.len(),
                    flat@ == before_layer + flatten_layer(layer@.take(j as int)),
                decreases layer.neurons.len() - j,
            {
                let neuron = &layer.neurons[j];
                let ghost before_neuron = flat@;
                flat.push(neuron.bias);
                let mut k: usize = 0;
                while k < neuron.weights.len()
                    invariant
                        k <= neuron.weights.len(),
                        flat@ == before_neuron + seq![neuron.bias] + neuron.weights@.take(k as int),
                    decreases neuron.weights.len() - k,
                {
                    flat.push(neuron.weights[k]);
                    proof {
                        assert(neuron.weights@.take(k + 1) =~= neuron.weights@.take(k as int).push(
                            neuron.weights@[k as int],
                        ));
                    }
                    k += 1;
                }
                proof {
                    assert(neuron.weights@.take(k as int) =~= neuron.weights@);
                    assert(layer@.take(j + 1) =~= layer@.take(j as int).push(neuron@));
                    lemma_flatten_layer_push(layer@.take(j as int), neuron@);
                    assert(flat@ =~= before_layer + flatten_layer(layer@.take(j + 1)));
                }
                j += 1;
            }
            proof {
                assert(layer@.take(j as int) =~= layer@);
                assert(self@.take(i + 1) =~= self@.take(i as int).push(layer@));
                lemma_flatten_network_push(self@.take(i as int), layer@);
            }
            i += 1;
        }
        proof {
            assert(self@.take(i as int) =~= self@);
        }
        flat
    }
}

} // verus!
