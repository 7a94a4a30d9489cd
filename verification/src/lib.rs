//! Core of the constraint-check step of a STARK-style prover.
//!
//! Given a committed execution trace, laid out as three named register
//! groups of field-element columns, plus two global vectors and a random
//! extension-field challenge, the library evaluates a fixed constraint
//! polynomial at every point of a blown-up evaluation domain and writes
//! one check value per point.  The per-point values are a pure function
//! of the inputs, so every backend (sequential, tiled, or running in a
//! caller-chosen order) is proved to fill the check buffer with exactly
//! the same contents.

pub mod buffer;
pub mod errors;
pub mod ext;
pub mod eval;
pub mod field;
pub mod layout;
