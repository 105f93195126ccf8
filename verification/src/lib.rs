//! A feedforward neural network as a verified data structure.
//!
//! A [`Network`] is a stack of fully connected layers. The crate proves the
//! structural part of working with one: how many scalars a topology calls
//! for, the order in which draws become biases and weights, the order in
//! which they are flattened again, and how an input vector is threaded
//! through the layers. Scalars are opaque to the proofs: the arithmetic of a
//! single neuron is a function that the caller passes to `propagate`.

pub mod draws;
pub mod error;
pub mod laws;
pub mod layer;
pub mod layer_topology;
pub mod network;
pub mod neuron;

pub use crate::draws::Draws;
pub use crate::error::NetworkError;
pub use crate::layer::Layer;
pub use crate::layer_topology::LayerTopology;
pub use crate::network::Network;
pub use crate::neuron::Neuron;
