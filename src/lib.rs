//! A two-layer feed-forward network, kept generic over the scalar type and
//! over the activation and update rules that the caller supplies. The library
//! owns the network's shape: how many units each layer has, how long each
//! weight vector is, which vector feeds which layer, and the order in which
//! training samples are visited.
pub mod network;
pub mod neuron;
