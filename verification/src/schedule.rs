//! What the rounds compute, on field elements as plain numbers.

use crate::field::{field_add, quintic};
use crate::mds_matrix::mix;
use vstd::prelude::*;

verus! {

/// The words with the constants from `offset` on added, one to each word.
pub open spec fn add_keys(words: Seq<nat>, constants: Seq<nat>, offset: nat) -> Seq<nat> {
    Seq::new(words.len(), |i: int| field_add(words[i], constants[offset + i]))
}

/// Every word raised to the fifth power.
pub open spec fn substitute_all(words: Seq<nat>) -> Seq<nat> {
    words.map_values(|w: nat| quintic(w))
}

/// The first word raised to the fifth power, the others as they are.
pub open spec fn substitute_first(words: Seq<nat>) -> Seq<nat> {
    if words.len() > 0 {
        words.update(0, quintic(words[0]))
    } else {
        words
    }
}

/// A full round: keys, the fifth power of every word, the mixing matrix.
pub open spec fn full_round(
    words: Seq<nat>,
    constants: Seq<nat>,
    offset: nat,
    m: Seq<Seq<nat>>,
) -> Seq<nat> {
    mix(m, substitute_all(add_keys(words, constants, offset)))
}

/// A partial round: keys, the fifth power of the first word, the mixing
/// matrix.
pub open spec fn partial_round(
    words: Seq<nat>,
    constants: Seq<nat>,
    offset: nat,
    m: Seq<Seq<nat>>,
) -> Seq<nat> {
    mix(m, substitute_first(add_keys(words, constants, offset)))
}

/// Whether the round at `index` (from zero) is a full one, in a schedule of
/// `half` full rounds, then `partial` partial ones, then `half` full ones.
pub open spec fn is_full_round(half: nat, partial: nat, index: nat) -> bool {
    index < half || index >= half + partial
}

/// The state after the first `count` rounds of the schedule. The round at
/// `index` takes its constants from `index * words.len()` on.
pub open spec fn rounds(
    words: Seq<nat>,
    constants: Seq<nat>,
    m: Seq<Seq<nat>>,
    half: nat,
    partial: nat,
    count: nat,
) -> Seq<nat>
    decreases count,
{
    if count == 0 {
        words
    } else {
        let index = (count - 1) as nat;
        let before = rounds(words, constants, m, half, partial, index);
        if is_full_round(half, partial, index) {
            full_round(before, constants, index * words.len(), m)
        } else {
            partial_round(before, constants, index * words.len(), m)
        }
    }
}

/// The permutation: `full_rounds / 2` full rounds, `partial_rounds` partial
/// rounds, `full_rounds / 2` full rounds.
pub open spec fn permutation(
    words: Seq<nat>,
    constants: Seq<nat>,
    m: Seq<Seq<nat>>,
    full_rounds: nat,
    partial_rounds: nat,
) -> Seq<nat> {
    rounds(
        words,
        constants,
        m,
        full_rounds / 2,
        partial_rounds,
        full_rounds / 2 + partial_rounds + full_rounds / 2,
    )
}

} // verus!
