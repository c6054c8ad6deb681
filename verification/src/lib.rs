//! A Poseidon-style sponge permutation over the scalar field of the
//! Ristretto group, evaluated on field elements or laid down as
//! multiplication gates of a rank-1 constraint system.
//!
//! `permutation` holds the permutation itself. `schedule` says what its
//! rounds compute on numbers, `constraints` what they ask of a constraint
//! system, and `soundness` proves that the two agree.
//!
//! The library allocates no gate itself. The constrained evaluation says
//! which gate it needs next and takes the wires that the constraint system
//! gave for it; whoever holds the constraint system makes the call.

pub mod circuit;
pub mod constraints;
pub mod errors;
pub mod field;
pub mod linear_combination;
pub mod mds_matrix;
pub mod permutation;
pub mod round_constants;
pub mod scalar;
pub mod schedule;
pub mod soundness;
