//! Map matching of noisy position tracks onto a directed road network.
//!
//! Quantities are fixed-point: distances in millimetres, log-probabilities
//! in micro-nats, and a log-probability of minus infinity is `None`.
pub mod viterbi;
pub mod graph;
pub mod network;
pub mod candidate;
pub mod transition;
pub mod matching;
