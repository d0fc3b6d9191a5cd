//! Prover side of a PLONK-style proof over the Pallas base field.

pub mod field;
pub mod domain;
pub mod prover;
pub mod localplonk;
