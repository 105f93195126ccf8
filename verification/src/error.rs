//! Why a network could not be built.

use vstd::prelude::*;

verus! {

/// The ways in which building a network from a topology and a supply of
/// scalars is refused. The last two are the two directions in which the
/// supply can disagree with the count that the topology implies.
#[derive(Clone, Copy, Debug, PartialEq, Eq)]
pub enum NetworkError {
    /// The topology has fewer than two entries, so it describes no layer.
    InvalidTopology,
    /// Fewer scalars were supplied than the topology calls for.
    InsufficientWeights,
    /// More scalars were supplied than the topology calls for.
    ExcessWeights,
}

} // verus!
