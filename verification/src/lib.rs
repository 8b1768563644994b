//! Arithmetization of algebraic permutation hashes over the Goldilocks field.
//!
//! A permutation is described once, by its round tables. From that single
//! description the crate derives the native evaluator, the sponge hash built on
//! it, the constraint circuit that encodes a chain of hashes, and the witness
//! that binds a concrete input to the circuit's wires. The agreement of the
//! native and the arithmetized computation is proved, not tested.
//!
//! The succinct-proof backend is not part of this crate: a circuit and a
//! witness are plain data that a driver hands to it.

pub mod field;
pub mod params;
pub mod permutation;
pub mod sponge;
pub mod tables;
pub mod circuit;
pub mod config;
pub mod witness;
pub mod arithmetize;
pub mod driver;
pub mod soundness;
