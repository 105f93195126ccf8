//! A single neuron: a bias and one weight per input.

use vstd::prelude::*;
use crate::draws::Draws;
use crate::error::NetworkError;

verus! {

/// What a neuron holds, as mathematics.
pub struct NeuronView<S> {
    pub bias: S,
    pub weights: Seq<S>,
}

impl<S> NeuronView<S> {
    /// The neuron's scalars in flattened order: the bias, then the weights
    /// in ascending index order.
    pub open spec fn flat(self) -> Seq<S> {
        seq![self.bias] + self.weights
    }
}

/// The neuron that the front of `flat` describes: `flat[0]` is the bias and
/// the `inputs` scalars after it are the weights, in order.
pub open spec fn neuron_from<S>(flat: Seq<S>, inputs: nat) -> NeuronView<S> {
    NeuronView { bias: flat[0], weights: flat.subrange(1, inputs as int + 1) }
}

/// Whether `fire` may be called on any bias with any weights and inputs of
/// one common width. A neuron's function is never asked for anything else.
pub open spec fn fires_on_equal_widths<S, F: Fn(S, &[S], &[S]) -> S>(fire: F) -> bool {
    forall|bias: S, weights: &[S], inputs: &[S]|
        weights@.len() == inputs@.len() ==> #[trigger] call_requires(
            fire,
            (bias, weights, inputs),
        )
}

/// Whether `output` is a value that `fire` may return for this neuron on
/// these inputs.
pub open spec fn neuron_fires<S, F: Fn(S, &[S], &[S]) -> S>(
    fire: F,
    neuron: NeuronView<S>,
    inputs: Seq<S>,
    output: S,
) -> bool {
    exists|weights: &[S], values: &[S]|
        weights@ == neuron.weights && values@ == inputs && #[trigger] call_ensures(
            fire,
            (neuron.bias, weights, values),
            output,
        )
}

/// A neuron over scalars of type `S`.
#[derive(Clone, Debug)]
pub struct Neuron<S> {
    pub bias: S,
    pub weights: Vec<S>,
}

impl<S> View for Neuron<S> {
    type V = NeuronView<S>;

    open spec fn view(&self) -> NeuronView<S> {
        NeuronView { bias: self.bias, weights: self.weights@ }
    }
}

impl<S: Copy> Neuron<S> {
    /// A neuron with the given bias and weights.
    pub fn new(bias: S, weights: Vec<S>) -> (neuron: Self)
        ensures
            neuron.bias == bias,
            neuron.weights == weights,
            neuron@ == (NeuronView { bias, weights: weights@ }),
    {
        Neuron { bias, weights }
    }

    /// The neuron's output for `inputs`: what `fire` makes of the bias, the
    /// weights and the inputs. `inputs` has one entry per weight.
    pub fn propagate<F: Fn(S, &[S], &[S]) -> S>(&self, inputs: &[S], fire: &F) -> (output: S)
        requires
            inputs@.len() == self@.weights.len(),
            fires_on_equal_widths(*fire),
        ensures
            neuron_fires(*fire, self@, inputs@, output),
    {
        let weights = self.weights.as_slice();
        let output = fire(self.bias, weights, inputs);
        assert(weights@ == self@.weights && call_ensures(
            *fire,
            (self@.bias, weights, inputs),
            output,
        ));
        output
    }

    /// Builds a neuron from the next `input_count + 1` draws, which the
    /// caller knows to be there: first the bias, then the weights in order.
    pub(crate) fn draw(draws: &mut Draws<S>, input_count: usize) -> (neuron: Self)
        requires
            old(draws).pending().len() > input_count,
        ensures
            neuron@ == neuron_from(old(draws).pending(), input_count as nat),
            neuron@.weights.len() == input_count,
            final(draws).pending() == old(draws).pending().skip(input_count + 1),
    {
        let ghost supply = draws.pending();
        let bias = draws.next().unwrap();
        let mut weights: Vec<S> = Vec::new();
        let mut k: usize = 0;
        while k < input_count
            invariant
                k <= input_count < supply.len(),
                draws.pending() == supply.skip(k + 1),
                weights@ == supply.subrange(1, k + 1),
            decreases input_count - k,
        {
            let weight = draws.next().unwrap();
            weights.push(weight);
            proof {
                assert(draws.pending() =~= supply.skip(k + 2));
                assert(weights@ =~= supply.subrange(1, k + 2));
            }
            k += 1;
        }
        Neuron { bias, weights }
    }

    /// Builds a neuron with `input_count` inputs from the next draws: the
    /// first draw becomes the bias, the `input_count` draws after it become
    /// the weights, in order. When fewer than `input_count + 1` draws are
    /// left, none is taken.
    pub fn random(draws: &mut Draws<S>, input_count: usize) -> (result: Result<Self, NetworkError>)
        ensures
            match result {
                Ok(neuron) => {
                    &&& old(draws).pending().len() > input_count
                    &&& neuron@ == neuron_from(old(draws).pending(), input_count as nat)
                    &&& neuron@.weights.len() == input_count
                    &&& final(draws).pending() == old(draws).pending().skip(input_count + 1)
                },
                Err(error) => {
                    &&& old(draws).pending().len() <= input_count
                    &&& error == NetworkError::InsufficientWeights
                    &&& final(draws).pending() == old(draws).pending()
                },
            },
    {
        if draws.remaining() > input_count {
            Ok(Self::draw(draws, input_count))
        } else {
            Err(NetworkError::InsufficientWeights)
        }
    }
}

} // verus!
