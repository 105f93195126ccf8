//! Topologies, and the number of scalars that a network of a given topology holds.

use vstd::prelude::*;

verus! {

/// The number of neurons in one layer. A sequence of these describes a
/// network: the first entry is the width of the input, each later entry is
/// the width of one layer's output.
#[derive(Clone, Copy, Debug, PartialEq, Eq)]
pub struct LayerTopology {
    pub neurons: usize,
}

/// The widths listed by a topology.
pub open spec fn widths(topology: Seq<LayerTopology>) -> Seq<nat> {
    Seq::new(topology.len(), |i: int| topology[i].neurons as nat)
}

/// Scalars held by one neuron with `inputs` inputs: its bias and one weight per input.
pub open spec fn neuron_size(inputs: nat) -> nat {
    inputs + 1
}

/// Scalars held by a layer of `outputs` neurons with `inputs` inputs each.
pub open spec fn layer_size(inputs: nat, outputs: nat) -> nat {
    outputs * neuron_size(inputs)
}

/// Scalars held by the first `layers` layers of a network with these widths.
/// Layer `i` has `widths[i]` inputs and `widths[i + 1]` neurons.
pub open spec fn size_before(widths: Seq<nat>, layers: nat) -> nat
    decreases layers,
{
    if layers == 0 {
        0
    } else {
        size_before(widths, (layers - 1) as nat) + layer_size(
            widths[layers - 1],
            widths[layers as int],
        )
    }
}

/// Number of layers in a network with these widths.
pub open spec fn layer_count(widths: Seq<nat>) -> nat {
    if widths.len() == 0 {
        0
    } else {
        (widths.len() - 1) as nat
    }
}

/// Scalars held by a whole network with these widths.
pub open spec fn network_size(widths: Seq<nat>) -> nat {
    size_before(widths, layer_count(widths))
}

/// `size_before` grows with the number of layers counted.
pub proof fn lemma_size_before_monotonic(widths: Seq<nat>, i: nat, j: nat)
    requires
        i <= j,
    ensures
        size_before(widths, i) <= size_before(widths, j),
    decreases j,
{
    if i < j {
        lemma_size_before_monotonic(widths, i, (j - 1) as nat);
    }
}

/// Counts the scalars of one layer of `outputs` neurons with `inputs`
/// inputs each. `None` when the count does not fit in `usize`.
pub fn layer_parameter_count(inputs: usize, outputs: usize) -> (count: Option<usize>)
    ensures
        match count {
            Some(n) => n == layer_size(inputs as nat, outputs as nat),
            None => layer_size(inputs as nat, outputs as nat) > usize::MAX,
        },
{
    if outputs == 0 {
        assert(layer_size(inputs as nat, 0) == 0);
        return Some(0);
    }
    match inputs.checked_add(1) {
        Some(per_neuron) => outputs.checked_mul(per_neuron),
        None => {
            assert(outputs * (inputs + 1) > usize::MAX) by (nonlinear_arith)
                requires
                    outputs >= 1,
                    inputs + 1 > usize::MAX,
            ;
            None
        },
    }
}

/// Counts the scalars of a network with the given topology: for every pair
/// of neighbouring entries, one bias and one weight per input for each
/// neuron. `None` when the count does not fit in `usize`.
pub fn parameter_count(topology: &[LayerTopology]) -> (count: Option<usize>)
    ensures
        match count {
            Some(n) => n == network_size(widths(topology@)),
            None => network_size(widths(topology@)) > usize::MAX,
        },
{
    let ghost w = widths(topology@);
    if topology.len() == 0 {
        return Some(0);
    }
    let mut total: usize = 0;
    let mut i: usize = 1;
    while i < topology.len()
        invariant
            1 <= i <= topology.len(),
            w == widths(topology@),
            w.len() == topology.len(),
            total == size_before(w, (i - 1) as nat),
        decreases topology.len() - i,
    {
        proof {
            lemma_size_before_monotonic(w, i as nat, layer_count(w));
            assert(w[i - 1] == topology[i - 1].neurons);
            assert(w[i as int] == topology[i as int].neurons);
        }
        let size = layer_parameter_count(topology[i - 1].neurons, topology[i].neurons);
        let next = match size {
            Some(size) => total.checked_add(size),
            None => None,
        };
        match next {
            Some(next) => {
                total = next;
            },
            None => {
                return None;
            },
        }
        i += 1;
    }
    Some(total)
}

} // verus!
