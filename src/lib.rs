//! Simulation of nondeterministic Turing machines given as text transition
//! tables, and compilation of two-tape machines into one-tape machines.
pub mod double_transition;
pub mod engine;
pub mod loader;
pub mod tape;
pub mod text;
pub mod transition;
pub mod translator;
pub mod types;
