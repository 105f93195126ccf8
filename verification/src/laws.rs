//! What holds of building, flattening and running networks, whatever the
//! scalars are.

use vstd::prelude::*;
use crate::layer::{flatten_layer, layer_accepts, layer_from, layer_maps, lemma_flatten_layer_push};
use crate::layer_topology::{
    layer_count, layer_size, lemma_size_before_monotonic, network_size, neuron_size, size_before,
};
use crate::network::{
    flatten_network, lemma_flatten_network_push, network_accepts, network_conforms, network_from,
    network_maps, output_width, width_into,
};
use crate::neuron::{neuron_fires, neuron_from, NeuronView};

verus! {

/// A neuron is read back from its own scalars, whatever follows them.
pub proof fn lemma_neuron_from_flat<S>(neuron: NeuronView<S>, rest: Seq<S>)
    ensures
        neuron_from(neuron.flat() + rest, neuron.weights.len()) == neuron,
{
    let flat = neuron.flat() + rest;
    assert(flat[0] == neuron.bias);
    assert(flat.subrange(1, neuron.weights.len() as int + 1) =~= neuron.weights);
}

/// The scalars of a neuron that was read from `flat` are the front of `flat`.
pub proof fn lemma_flat_of_neuron_from<S>(flat: Seq<S>, inputs: nat)
    requires
        flat.len() > inputs,
    ensures
        neuron_from(flat, inputs).flat() == flat.take(inputs as int + 1),
{
    assert(neuron_from(flat, inputs).flat() =~= flat.take(inputs as int + 1));
}

/// Flattening two runs of neurons one after the other flattens their concatenation.
pub proof fn lemma_flatten_layer_concat<S>(a: Seq<NeuronView<S>>, b: Seq<NeuronView<S>>)
    ensures
        flatten_layer(a + b) == flatten_layer(a) + flatten_layer(b),
    decreases b.len(),
{
    if b.len() == 0 {
        assert(a + b =~= a);
        assert(flatten_layer(a) + flatten_layer(b) =~= flatten_layer(a));
    } else {
        lemma_flatten_layer_concat(a, b.drop_last());
        assert((a + b).drop_last() =~= a + b.drop_last());
        assert(flatten_layer(a + b) =~= flatten_layer(a) + flatten_layer(b));
    }
}

/// A layer whose neurons have `inputs` weights each flattens to
/// `inputs + 1` scalars per neuron.
pub proof fn lemma_flatten_layer_len<S>(neurons: Seq<NeuronView<S>>, inputs: nat)
    requires
        layer_accepts(neurons, inputs),
    ensures
        flatten_layer(neurons).len() == layer_size(inputs, neurons.len()),
    decreases neurons.len(),
{
    if neurons.len() > 0 {
        lemma_flatten_layer_len(neurons.drop_last(), inputs);
        assert(neurons.last().flat().len() == inputs + 1);
        assert((neurons.len() - 1) * (inputs + 1) + (inputs + 1) == neurons.len() * (inputs + 1))
            by (nonlinear_arith);
    } else {
        assert(0 * (inputs + 1) == 0) by (nonlinear_arith);
    }
}

/// The first `j` neurons of a layer that was read from `flat` flatten to
/// the first `j * (inputs + 1)` scalars of `flat`.
pub proof fn lemma_flatten_of_layer_from<S>(flat: Seq<S>, inputs: nat, outputs: nat, j: nat)
    requires
        j <= outputs,
        flat.len() >= layer_size(inputs, outputs),
    ensures
        j * neuron_size(inputs) <= flat.len(),
        flatten_layer(layer_from(flat, inputs, outputs).take(j as int)) == flat.take(
            (j * neuron_size(inputs)) as int,
        ),
    decreases j,
{
    let layer = layer_from(flat, inputs, outputs);
    let size = neuron_size(inputs);
    assert(j * size <= outputs * size) by (nonlinear_arith)
        requires
            j <= outputs,
    ;
    if j == 0 {
        assert(layer.take(0) =~= Seq::empty());
        assert(0 * size == 0) by (nonlinear_arith);
        assert(flat.take(0) =~= Seq::empty());
    } else {
        let before = (j - 1) as nat;
        lemma_flatten_of_layer_from(flat, inputs, outputs, before);
        assert(before * size + size == j * size) by (nonlinear_arith)
            requires
                before + 1 == j,
        ;
        assert(layer.take(j as int) =~= layer.take(before as int).push(layer[before as int]));
        lemma_flatten_layer_push(layer.take(before as int), layer[before as int]);
        lemma_flat_of_neuron_from(flat.skip((before * size) as int), inputs);
        assert(flat.take((before * size) as int) + flat.skip((before * size) as int).take(
            size as int,
        ) =~= flat.take((j * size) as int));
    }
}

/// A layer is read back from its own scalars, whatever follows them.
pub proof fn lemma_layer_from_flatten<S>(neurons: Seq<NeuronView<S>>, inputs: nat, rest: Seq<S>)
    requires
        layer_accepts(neurons, inputs),
    ensures
        layer_from(flatten_layer(neurons) + rest, inputs, neurons.len()) == neurons,
{
    let flat = flatten_layer(neurons) + rest;
    let built = layer_from(flat, inputs, neurons.len());
    let size = neuron_size(inputs);
    assert forall|j: int| 0 <= j < neurons.len() implies built[j] == neurons[j] by {
        let head = neurons.take(j);
        let tail = neurons.skip(j + 1);
        assert(head + (seq![neurons[j]] + tail) =~= neurons);
        lemma_flatten_layer_concat(head, seq![neurons[j]] + tail);
        lemma_flatten_layer_concat(seq![neurons[j]], tail);
        lemma_flatten_layer_push(Seq::empty(), neurons[j]);
        assert(Seq::<NeuronView<S>>::empty().push(neurons[j]) =~= seq![neurons[j]]);
        assert(flatten_layer(Seq::<NeuronView<S>>::empty()) =~= Seq::empty());
        lemma_flatten_layer_len(head, inputs);
        let after = flatten_layer(tail) + rest;
        assert(flatten_layer(head).len() == j * size);
        assert(flat.skip(j * size) =~= neurons[j].flat() + after);
        lemma_neuron_from_flat(neurons[j], after);
    }
    assert(built =~= neurons);
}

/// Flattening two runs of layers one after the other flattens their concatenation.
pub proof fn lemma_flatten_network_concat<S>(
    a: Seq<Seq<NeuronView<S>>>,
    b: Seq<Seq<NeuronView<S>>>,
)
    ensures
        flatten_network(a + b) == flatten_network(a) + flatten_network(b),
    decreases b.len(),
{
    if b.len() == 0 {
        assert(a + b =~= a);
        assert(flatten_network(a) + flatten_network(b) =~= flatten_network(a));
    } else {
        lemma_flatten_network_concat(a, b.drop_last());
        assert((a + b).drop_last() =~= a + b.drop_last());
        assert(flatten_network(a + b) =~= flatten_network(a) + flatten_network(b));
    }
}

/// The first `k` layers of a network of a given shape flatten to as many
/// scalars as the shape gives those layers.
pub proof fn lemma_flatten_network_len<S>(layers: Seq<Seq<NeuronView<S>>>, widths: Seq<nat>, k: nat)
    requires
        network_conforms(layers, widths),
        k <= layers.len(),
    ensures
        flatten_network(layers.take(k as int)).len() == size_before(widths, k),
    decreases k,
{
    if k > 0 {
        let before = (k - 1) as nat;
        lemma_flatten_network_len(layers, widths, before);
        assert(layers.take(k as int) =~= layers.take(before as int).push(layers[before as int]));
        lemma_flatten_network_push(layers.take(before as int), layers[before as int]);
        lemma_flatten_layer_len(layers[before as int], widths[before as int]);
    } else {
        assert(layers.take(0) =~= Seq::empty());
    }
}

/// The first `k` layers of a network that was read from `flat` flatten to
/// the scalars of `flat` that those layers were read from.
pub proof fn lemma_flatten_of_network_from<S>(flat: Seq<S>, widths: Seq<nat>, k: nat)
    requires
        k <= layer_count(widths),
        flat.len() >= network_size(widths),
    ensures
        size_before(widths, k) <= flat.len(),
        flatten_network(network_from(flat, widths).take(k as int)) == flat.take(
            size_before(widths, k) as int,
        ),
    decreases k,
{
    let network = network_from(flat, widths);
    lemma_size_before_monotonic(widths, k, layer_count(widths));
    if k == 0 {
        assert(network.take(0) =~= Seq::empty());
        assert(flat.take(0) =~= Seq::empty());
    } else {
        let before = (k - 1) as nat;
        let start = size_before(widths, before);
        let inputs = widths[before as int];
        let outputs = widths[k as int];
        lemma_flatten_of_network_from(flat, widths, before);
        assert(network.take(k as int) =~= network.take(before as int).push(network[before as int]));
        lemma_flatten_network_push(network.take(before as int), network[before as int]);
        let layer = layer_from(flat.skip(start as int), inputs, outputs);
        lemma_flatten_of_layer_from(flat.skip(start as int), inputs, outputs, outputs);
        assert(layer.take(outputs as int) =~= layer);
        assert(flat.take(start as int) + flat.skip(start as int).take(
            layer_size(inputs, outputs) as int,
        ) =~= flat.take(size_before(widths, k) as int));
    }
}

/// A network of a given shape is read back from its own scalars, whatever
/// follows them.
pub proof fn lemma_network_from_flatten<S>(
    layers: Seq<Seq<NeuronView<S>>>,
    widths: Seq<nat>,
    rest: Seq<S>,
)
    requires
        network_conforms(layers, widths),
    ensures
        network_from(flatten_network(layers) + rest, widths) == layers,
{
    let flat = flatten_network(layers) + rest;
    let built = network_from(flat, widths);
    assert forall|i: int| 0 <= i < layers.len() implies built[i] == layers[i] by {
        let head = layers.take(i);
        let tail = layers.skip(i + 1);
        assert(head + (seq![layers[i]] + tail) =~= layers);
        lemma_flatten_network_concat(head, seq![layers[i]] + tail);
        lemma_flatten_network_concat(seq![layers[i]], tail);
        lemma_flatten_network_push(Seq::empty(), layers[i]);
        assert(Seq::<Seq<NeuronView<S>>>::empty().push(layers[i]) =~= seq![layers[i]]);
        assert(flatten_network(Seq::<Seq<NeuronView<S>>>::empty()) =~= Seq::empty());
        lemma_flatten_network_len(layers, widths, i as nat);
        let after = flatten_network(tail) + rest;
        assert(flat.skip(size_before(widths, i as nat) as int) =~= flatten_layer(layers[i]) + after);
        lemma_layer_from_flatten(layers[i], widths[i], after);
    }
    assert(built =~= layers);
}

/// A network that is read from enough scalars has the shape that it was
/// asked to have.
pub proof fn lemma_built_network_conforms<S>(flat: Seq<S>, widths: Seq<nat>)
    requires
        flat.len() >= network_size(widths),
    ensures
        network_conforms(network_from(flat, widths), widths),
{
    let network = network_from(flat, widths);
    assert forall|i: int| 0 <= i < network.len() implies (#[trigger] network[i]).len() == widths[i
        + 1] && layer_accepts(network[i], widths[i]) by {
        let start = size_before(widths, i as nat);
        let inputs = widths[i];
        let outputs = widths[i + 1];
        lemma_size_before_monotonic(widths, (i + 1) as nat, layer_count(widths));
        let part = flat.skip(start as int);
        assert forall|j: int| 0 <= j < network[i].len() implies (#[trigger] network[i][j]).weights.len()
            == inputs by {
            assert((j + 1) * neuron_size(inputs) <= outputs * neuron_size(inputs))
                by (nonlinear_arith)
                requires
                    j + 1 <= outputs,
            ;
            assert((j + 1) * neuron_size(inputs) == j * neuron_size(inputs) + neuron_size(inputs))
                by (nonlinear_arith);
            assert(0 <= j * neuron_size(inputs)) by (nonlinear_arith)
                requires
                    0 <= j,
            ;
        }
    }
}

/// Flattening undoes building: the scalars of a network that was read from
/// `flat` are the scalars of `flat` that were used, in the order in which
/// they were used.
pub proof fn lemma_flatten_undoes_build<S>(flat: Seq<S>, widths: Seq<nat>)
    requires
        flat.len() >= network_size(widths),
    ensures
        flatten_network(network_from(flat, widths)) == flat.take(network_size(widths) as int),
{
    let network = network_from(flat, widths);
    lemma_flatten_of_network_from(flat, widths, layer_count(widths));
    assert(network.take(layer_count(widths) as int) =~= network);
}

/// Building undoes flattening: a network of a given shape flattens to as
/// many scalars as the shape calls for, and reading a network of that
/// shape from them gives the same network again.
pub proof fn lemma_build_undoes_flatten<S>(layers: Seq<Seq<NeuronView<S>>>, widths: Seq<nat>)
    requires
        network_conforms(layers, widths),
    ensures
        flatten_network(layers).len() == network_size(widths),
        network_from(flatten_network(layers), widths) == layers,
{
    lemma_flatten_network_len(layers, widths, layers.len());
    assert(layers.take(layers.len() as int) =~= layers);
    lemma_network_from_flatten(layers, widths, Seq::empty());
    assert(flatten_network(layers) + Seq::<S>::empty() =~= flatten_network(layers));
}

/// A rebuilt network runs like the one it was flattened from: on every
/// input it has the same results, whatever function the neurons fire with.
pub proof fn lemma_rebuilt_network_runs_alike<S, F: Fn(S, &[S], &[S]) -> S>(
    fire: F,
    layers: Seq<Seq<NeuronView<S>>>,
    widths: Seq<nat>,
    inputs: Seq<S>,
    outputs: Seq<S>,
)
    requires
        network_conforms(layers, widths),
    ensures
        network_maps(fire, network_from(flatten_network(layers), widths), inputs, outputs)
            == network_maps(fire, layers, inputs, outputs),
{
    lemma_build_undoes_flatten(layers, widths);
}

/// Building is a function of the draws that it uses: two supplies that agree
/// on the scalars that the shape calls for give the same network.
pub proof fn lemma_same_draws_same_network<S>(first: Seq<S>, second: Seq<S>, widths: Seq<nat>)
    requires
        first.len() >= network_size(widths),
        second.len() >= network_size(widths),
        first.take(network_size(widths) as int) == second.take(network_size(widths) as int),
    ensures
        network_from(first, widths) == network_from(second, widths),
{
    lemma_built_network_conforms(first, widths);
    lemma_built_network_conforms(second, widths);
    lemma_flatten_undoes_build(first, widths);
    lemma_flatten_undoes_build(second, widths);
    lemma_build_undoes_flatten(network_from(first, widths), widths);
    lemma_build_undoes_flatten(network_from(second, widths), widths);
}

/// Building keeps every draw that it uses apart: two supplies that differ
/// somewhere among the scalars that the shape calls for give different
/// networks.
pub proof fn lemma_different_draws_different_network<S>(
    first: Seq<S>,
    second: Seq<S>,
    widths: Seq<nat>,
)
    requires
        first.len() >= network_size(widths),
        second.len() >= network_size(widths),
        first.take(network_size(widths) as int) != second.take(network_size(widths) as int),
    ensures
        network_from(first, widths) != network_from(second, widths),
{
    lemma_flatten_undoes_build(first, widths);
    lemma_flatten_undoes_build(second, widths);
}

/// Where each draw goes: neuron `j` of layer `i` gets the `widths[i] + 1`
/// draws that start after the layers before layer `i` and after the `j`
/// neurons before it. The first of them is its bias, the one at `1 + k` is
/// its weight `k`.
pub proof fn lemma_draw_positions<S>(flat: Seq<S>, widths: Seq<nat>, i: int, j: int, k: int)
    requires
        flat.len() >= network_size(widths),
        0 <= i < layer_count(widths),
        0 <= j < widths[i + 1],
        0 <= k < widths[i],
    ensures
        size_before(widths, i as nat) + j * neuron_size(widths[i]) + 1 + k < flat.len(),
        network_from(flat, widths)[i][j].bias == flat[size_before(widths, i as nat) + j
            * neuron_size(widths[i])],
        network_from(flat, widths)[i][j].weights[k] == flat[size_before(widths, i as nat) + j
            * neuron_size(widths[i]) + 1 + k],
{
    let inputs = widths[i];
    let outputs = widths[i + 1];
    lemma_size_before_monotonic(widths, (i + 1) as nat, layer_count(widths));
    assert((j + 1) * neuron_size(inputs) <= outputs * neuron_size(inputs)) by (nonlinear_arith)
        requires
            j + 1 <= outputs,
    ;
    assert((j + 1) * neuron_size(inputs) == j * neuron_size(inputs) + neuron_size(inputs))
        by (nonlinear_arith);
    assert(0 <= j * neuron_size(inputs)) by (nonlinear_arith)
        requires
            0 <= j,
    ;
}

/// A network of a given shape takes inputs of the shape's first width and
/// gives outputs of its last width.
pub proof fn lemma_conforming_network_widths<S>(layers: Seq<Seq<NeuronView<S>>>, widths: Seq<nat>)
    requires
        widths.len() >= 1,
        network_conforms(layers, widths),
    ensures
        network_accepts(layers, widths[0]),
        output_width(layers, widths[0]) == widths.last(),
{
    assert forall|i: int| 0 <= i < layers.len() implies layer_accepts(
        #[trigger] layers[i],
        width_into(layers, widths[0], i),
    ) by {
        if i > 0 {
            assert(layers[i - 1].len() == widths[i]);
        }
    }
    if layers.len() > 0 {
        assert(layers[layers.len() - 1].len() == widths[layers.len() as int]);
    }
}

/// Every result of a network has one value per neuron of the last layer,
/// and as many values as the input where there is no layer.
pub proof fn lemma_result_width<S, F: Fn(S, &[S], &[S]) -> S>(
    fire: F,
    layers: Seq<Seq<NeuronView<S>>>,
    inputs: Seq<S>,
    outputs: Seq<S>,
)
    requires
        network_maps(fire, layers, inputs, outputs),
    ensures
        outputs.len() == output_width(layers, inputs.len()),
{
}

/// The width of what comes out is the last width of the shape: a network
/// that was built for `widths`, given an input of the first width, has
/// only results of the last width.
pub proof fn lemma_built_network_result_width<S, F: Fn(S, &[S], &[S]) -> S>(
    fire: F,
    flat: Seq<S>,
    widths: Seq<nat>,
    inputs: Seq<S>,
    outputs: Seq<S>,
)
    requires
        widths.len() >= 2,
        flat.len() >= network_size(widths),
        inputs.len() == widths[0],
        network_maps(fire, network_from(flat, widths), inputs, outputs),
    ensures
        network_accepts(network_from(flat, widths), inputs.len()),
        outputs.len() == widths.last(),
{
    lemma_built_network_conforms(flat, widths);
    lemma_conforming_network_widths(network_from(flat, widths), widths);
    lemma_result_width(fire, network_from(flat, widths), inputs, outputs);
}

/// What holds of every value that `fire` returns holds of every output of
/// a layer.
pub proof fn lemma_layer_outputs_are_fired<S, F: Fn(S, &[S], &[S]) -> S>(
    fire: F,
    neurons: Seq<NeuronView<S>>,
    inputs: Seq<S>,
    outputs: Seq<S>,
    holds: spec_fn(S) -> bool,
)
    requires
        layer_maps(fire, neurons, inputs, outputs),
        forall|bias: S, weights: &[S], values: &[S], output: S|
            call_ensures(fire, (bias, weights, values), output) ==> holds(output),
    ensures
        forall|j: int| 0 <= j < outputs.len() ==> holds(#[trigger] outputs[j]),
{
    assert forall|j: int| 0 <= j < outputs.len() implies holds(#[trigger] outputs[j]) by {
        assert(neuron_fires(fire, neurons[j], inputs, outputs[j]));
    }
}

/// What holds of every value that `fire` returns holds of every output of
/// a network with at least one layer.
pub proof fn lemma_network_outputs_are_fired<S, F: Fn(S, &[S], &[S]) -> S>(
    fire: F,
    layers: Seq<Seq<NeuronView<S>>>,
    inputs: Seq<S>,
    outputs: Seq<S>,
    holds: spec_fn(S) -> bool,
)
    requires
        layers.len() > 0,
        network_maps(fire, layers, inputs, outputs),
        forall|bias: S, weights: &[S], values: &[S], output: S|
            call_ensures(fire, (bias, weights, values), output) ==> holds(output),
    ensures
        forall|j: int| 0 <= j < outputs.len() ==> holds(#[trigger] outputs[j]),
{
    let hidden = choose|hidden: Seq<S>|
        network_maps(fire, layers.drop_last(), inputs, hidden) && #[trigger] layer_maps(
            fire,
            layers.last(),
            hidden,
            outputs,
        );
    lemma_layer_outputs_are_fired(fire, layers.last(), hidden, outputs, holds);
}

/// Running a network is running its layers one after the other: a result
/// of the whole is a result of the last layer on some result of the layers
/// before it, and nothing else is.
pub proof fn lemma_network_runs_layer_by_layer<S, F: Fn(S, &[S], &[S]) -> S>(
    fire: F,
    layers: Seq<Seq<NeuronView<S>>>,
    inputs: Seq<S>,
    outputs: Seq<S>,
)
    requires
        layers.len() > 0,
    ensures
        network_maps(fire, layers, inputs, outputs) <==> exists|hidden: Seq<S>|
            network_maps(fire, layers.drop_last(), inputs, hidden) && #[trigger] layer_maps(
                fire,
                layers.last(),
                hidden,
                outputs,
            ),
{
}

/// A network of two layers gives exactly what the second layer gives on
/// what the first layer gives.
pub proof fn lemma_two_layers_chain<S, F: Fn(S, &[S], &[S]) -> S>(
    fire: F,
    first: Seq<NeuronView<S>>,
    second: Seq<NeuronView<S>>,
    inputs: Seq<S>,
    outputs: Seq<S>,
)
    ensures
        network_maps(fire, seq![first, second], inputs, outputs) <==> exists|hidden: Seq<S>|
            layer_maps(fire, first, inputs, hidden) && #[trigger] layer_maps(
                fire,
                second,
                hidden,
                outputs,
            ),
{
    let both = seq![first, second];
    let one = seq![first];
    assert(both.drop_last() =~= one);
    assert(one.drop_last() =~= Seq::<Seq<NeuronView<S>>>::empty());
    assert forall|hidden: Seq<S>|
        network_maps(fire, one, inputs, hidden) == layer_maps(fire, first, inputs, hidden) by {
        lemma_network_runs_layer_by_layer(fire, one, inputs, hidden);
        if network_maps(fire, one, inputs, hidden) {
            let start = choose|start: Seq<S>|
                network_maps(fire, one.drop_last(), inputs, start) && #[trigger] layer_maps(
                    fire,
                    one.last(),
                    start,
                    hidden,
                );
            assert(start == inputs);
        }
        if layer_maps(fire, first, inputs, hidden) {
            assert(network_maps(fire, one.drop_last(), inputs, inputs));
            assert(layer_maps(fire, one.last(), inputs, hidden));
        }
    }
    lemma_network_runs_layer_by_layer(fire, both, inputs, outputs);
    if network_maps(fire, both, inputs, outputs) {
        let hidden = choose|hidden: Seq<S>|
            network_maps(fire, both.drop_last(), inputs, hidden) && #[trigger] layer_maps(
                fire,
                both.last(),
                hidden,
                outputs,
            );
        assert(layer_maps(fire, first, inputs, hidden) && layer_maps(fire, second, hidden, outputs));
    }
    if exists|hidden: Seq<S>|
        layer_maps(fire, first, inputs, hidden) && #[trigger] layer_maps(
            fire,
            second,
            hidden,
            outputs,
        ) {
        let hidden = choose|hidden: Seq<S>|
            layer_maps(fire, first, inputs, hidden) && #[trigger] layer_maps(
                fire,
                second,
                hidden,
                outputs,
            );
        assert(network_maps(fire, both.drop_last(), inputs, hidden));
        assert(layer_maps(fire, both.last(), hidden, outputs));
    }
}

} // verus!
