//! Multiplication gates of a constraint system, as the evaluation of the
//! permutation records them.

use crate::linear_combination::Term;
use bulletproofs::r1cs::Variable;
use vstd::prelude::*;

verus! {

/// The three wires of a multiplication gate: left, right and output.
pub type GateWires = (Variable, Variable, Variable);

/// A multiplication gate: the two combinations that its input wires are
/// bound to, and its wires.
pub struct Gate {
    pub left: Seq<Term>,
    pub right: Seq<Term>,
    pub wires: GateWires,
}

} // verus!
