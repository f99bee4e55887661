//! A probabilistic grammar engine: grammar text is compiled into a weighted
//! automaton, and random traversals of that automaton produce text samples
//! conforming to the grammar.
//!
//! The pipeline: [`scanner`] turns grammar text into tokens, [`parser`]
//! builds a mutable id-keyed [`graph`], normalization turns raw edge weights
//! into cumulative-frequency distributions, and freezing yields an immutable
//! [`frozen::FrozenSyntaxGraph`] that [`frozen::FrozenSyntaxGraph::walk_graph`]
//! executes with a deterministic [`prng::PRNG`].
//!
//! Probabilities are fixed-point integers: the value [`fixed::SCALE`] stands
//! for 1.0, so every distribution is exact and every walk is a deterministic
//! function of the seed.

pub mod builder;
pub mod chars;
pub mod escape;
pub mod fixed;
pub mod frozen;
pub mod graph;
pub mod parser;
pub mod prng;
pub mod regex;
pub mod scanner;
