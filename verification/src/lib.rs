//! A recurrent sequence-learning engine for mapping frequency-spectrum
//! vectors to note-activation vectors, together with the note/chord
//! encoding types that its callers exchange with it.
//!
//! All numeric state is held in an exact fixed-point scalar ([`fixed::Fixed`]),
//! so every computation the engine performs is specified and proved down to
//! the value level.

pub mod activation;
pub mod computations;
pub mod configs;
pub mod encoder;
pub mod fixed;
pub mod laws;
pub mod nn;
pub mod notes;
pub mod params;
pub mod rng;
pub mod rnn;
pub mod text;
pub mod update;

pub use fixed::Fixed;
pub use nn::NN;
pub use rnn::RNN;
