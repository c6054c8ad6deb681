//! What the rounds ask of a constraint system, and what they hand back: the
//! gates of each substitution, and the linear combinations of each state.

use crate::circuit::{Gate, GateWires};
use crate::linear_combination::Term;
use crate::mds_matrix::mix_terms;
use crate::schedule::is_full_round;
use bulletproofs::r1cs::Variable;
use vstd::prelude::*;

verus! {

/// The combination that is one variable.
pub open spec fn variable_terms(v: Variable) -> Seq<Term> {
    seq![(v, 1nat)]
}

/// The combination that is a constant.
pub open spec fn constant_terms(c: nat) -> Seq<Term> {
    seq![(Variable::One(), c)]
}

/// The combinations that a sequence of variables stands for.
pub open spec fn variables_terms(variables: Seq<Variable>) -> Seq<Seq<Term>> {
    variables.map_values(|v: Variable| variable_terms(v))
}

/// The three gates from `at` on raise `x` to the fifth power: the first
/// squares `x`, the second squares the output of the first, and the third
/// multiplies the output of the second by the left wire of the first.
pub open spec fn is_s_box(gates: Seq<Gate>, at: int, x: Seq<Term>) -> bool {
    &&& 0 <= at
    &&& at + 3 <= gates.len()
    &&& gates[at].left == x
    &&& gates[at].right == x
    &&& gates[at + 1].left == variable_terms(gates[at].wires.2)
    &&& gates[at + 1].right == variable_terms(gates[at].wires.2)
    &&& gates[at + 2].left == variable_terms(gates[at + 1].wires.2)
    &&& gates[at + 2].right == variable_terms(gates[at].wires.0)
}

/// What the substitution whose gates start at `at` hands back: the output
/// wire of its third gate.
pub open spec fn s_box_output(gates: Seq<Gate>, at: int) -> Seq<Term> {
    variable_terms(gates[at + 2].wires.2)
}

/// The words with the constants from `offset` on added, one to each word,
/// each as a term of its own behind the word's terms.
pub open spec fn add_key_terms(words: Seq<Seq<Term>>, constants: Seq<nat>, offset: nat) -> Seq<
    Seq<Term>,
> {
    Seq::new(words.len(), |i: int| words[i] + constant_terms(constants[offset + i]))
}

/// The gates from `at` on are the substitutions of a full round on `keyed`:
/// three gates for each word, in the order of the words.
pub open spec fn is_full_substitution(gates: Seq<Gate>, at: int, keyed: Seq<Seq<Term>>) -> bool {
    forall|i: int| 0 <= i < keyed.len() ==> is_s_box(gates, at + 3 * i, #[trigger] keyed[i])
}

/// What the substitutions of a full round on `n` words hand back.
pub open spec fn full_substitution_output(gates: Seq<Gate>, at: int, n: nat) -> Seq<Seq<Term>> {
    Seq::new(n, |i: int| s_box_output(gates, at + 3 * i))
}

/// The gates from `at` on are the substitution of a partial round on
/// `keyed`: three gates for the first word, where there is one.
pub open spec fn is_partial_substitution(gates: Seq<Gate>, at: int, keyed: Seq<Seq<Term>>) -> bool {
    keyed.len() > 0 ==> is_s_box(gates, at, keyed[0])
}

/// What the substitution of a partial round on `keyed` hands back.
pub open spec fn partial_substitution_output(
    gates: Seq<Gate>,
    at: int,
    keyed: Seq<Seq<Term>>,
) -> Seq<Seq<Term>> {
    if keyed.len() > 0 {
        keyed.update(0, s_box_output(gates, at))
    } else {
        keyed
    }
}

/// How many gates a round on `n` words asks for.
pub open spec fn gates_in_round(n: nat, full: bool) -> nat {
    if full {
        3 * n
    } else if n > 0 {
        3
    } else {
        0
    }
}

/// How many gates the first `count` rounds of the schedule ask for.
pub open spec fn gates_in_rounds(n: nat, half: nat, partial: nat, count: nat) -> nat
    decreases count,
{
    if count == 0 {
        0
    } else {
        gates_in_rounds(n, half, partial, (count - 1) as nat) + gates_in_round(
            n,
            is_full_round(half, partial, (count - 1) as nat),
        )
    }
}

/// The state after one round on `words`, whose gates start at `at`.
pub open spec fn constrained_round(
    gates: Seq<Gate>,
    at: int,
    words: Seq<Seq<Term>>,
    constants: Seq<nat>,
    offset: nat,
    m: Seq<Seq<nat>>,
    full: bool,
) -> Seq<Seq<Term>> {
    let keyed = add_key_terms(words, constants, offset);
    if full {
        mix_terms(m, full_substitution_output(gates, at, keyed.len()))
    } else {
        mix_terms(m, partial_substitution_output(gates, at, keyed))
    }
}

/// The gates from `at` on are those of one round on `words`.
pub open spec fn is_round(
    gates: Seq<Gate>,
    at: int,
    words: Seq<Seq<Term>>,
    constants: Seq<nat>,
    offset: nat,
    full: bool,
) -> bool {
    let keyed = add_key_terms(words, constants, offset);
    if full {
        is_full_substitution(gates, at, keyed)
    } else {
        is_partial_substitution(gates, at, keyed)
    }
}

/// The state after the first `count` rounds of the schedule, whose gates
/// start at `at`.
pub open spec fn constrained_rounds(
    gates: Seq<Gate>,
    at: int,
    words: Seq<Seq<Term>>,
    constants: Seq<nat>,
    m: Seq<Seq<nat>>,
    half: nat,
    partial: nat,
    count: nat,
) -> Seq<Seq<Term>>
    decreases count,
{
    if count == 0 {
        words
    } else {
        let index = (count - 1) as nat;
        constrained_round(
            gates,
            at + gates_in_rounds(words.len(), half, partial, index),
            constrained_rounds(gates, at, words, constants, m, half, partial, index),
            constants,
            index * words.len(),
            m,
            is_full_round(half, partial, index),
        )
    }
}

/// The gates from `at` on are those of the first `count` rounds of the
/// schedule on `words`, round after round.
pub open spec fn are_rounds(
    gates: Seq<Gate>,
    at: int,
    words: Seq<Seq<Term>>,
    constants: Seq<nat>,
    m: Seq<Seq<nat>>,
    half: nat,
    partial: nat,
    count: nat,
) -> bool
    decreases count,
{
    if count == 0 {
        true
    } else {
        let index = (count - 1) as nat;
        &&& are_rounds(gates, at, words, constants, m, half, partial, index)
        &&& is_round(
            gates,
            at + gates_in_rounds(words.len(), half, partial, index),
            constrained_rounds(gates, at, words, constants, m, half, partial, index),
            constants,
            index * words.len(),
            is_full_round(half, partial, index),
        )
    }
}

/// No round changes the number of words.
pub proof fn lemma_constrained_rounds_len(
    gates: Seq<Gate>,
    at: int,
    words: Seq<Seq<Term>>,
    constants: Seq<nat>,
    m: Seq<Seq<nat>>,
    half: nat,
    partial: nat,
    count: nat,
)
    ensures
        constrained_rounds(gates, at, words, constants, m, half, partial, count).len()
            == words.len(),
    decreases count,
{
    if count > 0 {
        lemma_constrained_rounds_len(
            gates,
            at,
            words,
            constants,
            m,
            half,
            partial,
            (count - 1) as nat,
        );
    }
}

/// Gates that come behind those of the first `count` rounds change neither
/// what these rounds hand back nor whether their gates are as they should
/// be.
pub proof fn lemma_rounds_keep(
    before: Seq<Gate>,
    after: Seq<Gate>,
    at: int,
    words: Seq<Seq<Term>>,
    constants: Seq<nat>,
    m: Seq<Seq<nat>>,
    half: nat,
    partial: nat,
    count: nat,
)
    requires
        0 <= at,
        at + gates_in_rounds(words.len(), half, partial, count) <= before.len(),
        before.len() <= after.len(),
        forall|i: int| 0 <= i < before.len() ==> #[trigger] after[i] == before[i],
    ensures
        constrained_rounds(after, at, words, constants, m, half, partial, count)
            == constrained_rounds(before, at, words, constants, m, half, partial, count),
        are_rounds(after, at, words, constants, m, half, partial, count) == are_rounds(
            before,
            at,
            words,
            constants,
            m,
            half,
            partial,
            count,
        ),
    decreases count,
{
    if count > 0 {
        let index = (count - 1) as nat;
        let n = words.len();
        lemma_rounds_keep(before, after, at, words, constants, m, half, partial, index);
        lemma_constrained_rounds_len(before, at, words, constants, m, half, partial, index);
        let state = constrained_rounds(before, at, words, constants, m, half, partial, index);
        let start = at + gates_in_rounds(n, half, partial, index);
        let full = is_full_round(half, partial, index);
        let keyed = add_key_terms(state, constants, index * n);
        assert(keyed.len() == n);
        if full {
            assert(full_substitution_output(after, start, n) =~= full_substitution_output(
                before,
                start,
                n,
            ));
            assert(is_full_substitution(after, start, keyed) == is_full_substitution(
                before,
                start,
                keyed,
            )) by {
                assert forall|i: int| 0 <= i < n implies is_s_box(after, start + 3 * i, keyed[i])
                    == is_s_box(before, start + 3 * i, keyed[i]) by {}
            }
        } else {
            assert(partial_substitution_output(after, start, keyed) =~= partial_substitution_output(
                before,
                start,
                keyed,
            ));
        }
    }
}

/// The operands of the next gate that a substitution on `x` asks for, after
/// `answered` of its three gates, whose wires stand in `wires` from `at` on:
/// `x` twice, then the output of the first gate twice, then the output of
/// the second gate and the left wire of the first.
pub open spec fn s_box_operands(x: Seq<Term>, wires: Seq<GateWires>, at: int, answered: int) -> (
    Seq<Term>,
    Seq<Term>,
) {
    if answered == 0 {
        (x, x)
    } else if answered == 1 {
        (variable_terms(wires[at].2), variable_terms(wires[at].2))
    } else {
        (variable_terms(wires[at + 1].2), variable_terms(wires[at].0))
    }
}

/// What a substitution hands back whose three gates have the wires from
/// `at` on: the output wire of the third.
pub open spec fn s_box_result(wires: Seq<GateWires>, at: int) -> Seq<Term> {
    variable_terms(wires[at + 2].2)
}

/// What the substitutions of a full round on `n` words hand back, whose
/// gates have the wires `wires`.
pub open spec fn raised_all(wires: Seq<GateWires>, n: nat) -> Seq<Seq<Term>> {
    Seq::new(n, |i: int| s_box_result(wires, 3 * i))
}

/// What the substitution of a partial round on `keyed` hands back, whose
/// gates have the wires `wires`.
pub open spec fn raised_first(keyed: Seq<Seq<Term>>, wires: Seq<GateWires>) -> Seq<Seq<Term>> {
    if keyed.len() > 0 {
        keyed.update(0, s_box_result(wires, 0))
    } else {
        keyed
    }
}

/// The wires of the gates from `base` on.
pub open spec fn wires_from(gates: Seq<Gate>, base: int) -> Seq<GateWires> {
    Seq::new((gates.len() - base) as nat, |j: int| gates[base + j].wires)
}

/// At `base + j` stands gate `j` of the substitutions on `keyed`, and
/// its wires are `wires[j]`.
pub open spec fn gate_fits(
    gates: Seq<Gate>,
    base: int,
    keyed: Seq<Seq<Term>>,
    wires: Seq<GateWires>,
    j: int,
) -> bool {
    let gate = gates[base + j];
    let operands = s_box_operands(keyed[j / 3], wires, 3 * (j / 3), j % 3);
    gate.wires == wires[j] && gate.left == operands.0 && gate.right == operands.1
}

/// The gates from `base` on are the first `count` gates of the substitutions
/// on `keyed`, word after word, and `wires` holds their wires.
pub open spec fn is_round_prefix(
    gates: Seq<Gate>,
    base: int,
    keyed: Seq<Seq<Term>>,
    wires: Seq<GateWires>,
    count: int,
) -> bool {
    &&& 0 <= base
    &&& 0 <= count <= wires.len()
    &&& base + count <= gates.len()
    &&& forall|j: int| 0 <= j < count ==> #[trigger] gate_fits(gates, base, keyed, wires, j)
}

/// One more gate with the operands that are asked for next makes the prefix
/// one gate longer.
pub proof fn lemma_prefix_grows(
    gates: Seq<Gate>,
    base: int,
    keyed: Seq<Seq<Term>>,
    wires: Seq<GateWires>,
    gate: Gate,
)
    requires
        is_round_prefix(gates, base, keyed, wires, wires.len() as int),
        gates.len() == base + wires.len(),
        gate.left == s_box_operands(
            keyed[wires.len() as int / 3],
            wires,
            3 * (wires.len() as int / 3),
            wires.len() as int % 3,
        ).0,
        gate.right == s_box_operands(
            keyed[wires.len() as int / 3],
            wires,
            3 * (wires.len() as int / 3),
            wires.len() as int % 3,
        ).1,
    ensures
        is_round_prefix(
            gates.push(gate),
            base,
            keyed,
            wires.push(gate.wires),
            wires.len() as int + 1,
        ),
{
    let count = wires.len() as int;
    let after = gates.push(gate);
    let more = wires.push(gate.wires);
    assert forall|j: int| 0 <= j < count + 1 implies #[trigger] gate_fits(
        after,
        base,
        keyed,
        more,
        j,
    ) by {
        if j < count {
            assert(gate_fits(gates, base, keyed, wires, j));
            assert(after[base + j] == gates[base + j]);
            assert(more[j] == wires[j]);
            assert(more[3 * (j / 3)] == wires[3 * (j / 3)]);
            if j % 3 == 2 {
                assert(more[3 * (j / 3) + 1] == wires[3 * (j / 3) + 1]);
            }
        } else {
            assert(after[base + j] == gate);
            if j % 3 >= 1 {
                assert(more[3 * (j / 3)] == wires[3 * (j / 3)]);
            }
            if j % 3 == 2 {
                assert(more[3 * (j / 3) + 1] == wires[3 * (j / 3) + 1]);
            }
        }
    }
}

/// Three gates for each word are the substitutions of a full round, and
/// what they hand back is read from their wires.
pub proof fn lemma_prefix_is_full_round(
    gates: Seq<Gate>,
    base: int,
    keyed: Seq<Seq<Term>>,
    wires: Seq<GateWires>,
)
    requires
        wires.len() == 3 * keyed.len(),
        is_round_prefix(gates, base, keyed, wires, wires.len() as int),
    ensures
        is_full_substitution(gates, base, keyed),
        full_substitution_output(gates, base, keyed.len()) == raised_all(wires, keyed.len()),
{
    let n = keyed.len();
    assert forall|i: int| 0 <= i < n implies is_s_box(gates, base + 3 * i, #[trigger] keyed[i]) by {
        assert(gate_fits(gates, base, keyed, wires, 3 * i));
        assert(gate_fits(gates, base, keyed, wires, 3 * i + 1));
        assert(gate_fits(gates, base, keyed, wires, 3 * i + 2));
    }
    assert forall|i: int| 0 <= i < n implies full_substitution_output(gates, base, n)[i]
        == raised_all(wires, n)[i] by {
        assert(gate_fits(gates, base, keyed, wires, 3 * i + 2));
    }
    assert(full_substitution_output(gates, base, n) =~= raised_all(wires, n));
}

/// Three gates are the substitution of a partial round, and what it hands
/// back is read from their wires.
pub proof fn lemma_prefix_is_partial_round(
    gates: Seq<Gate>,
    base: int,
    keyed: Seq<Seq<Term>>,
    wires: Seq<GateWires>,
)
    requires
        keyed.len() > 0,
        wires.len() == 3,
        is_round_prefix(gates, base, keyed, wires, 3),
    ensures
        is_partial_substitution(gates, base, keyed),
        partial_substitution_output(gates, base, keyed) == raised_first(keyed, wires),
{
    assert(gate_fits(gates, base, keyed, wires, 0));
    assert(gate_fits(gates, base, keyed, wires, 1));
    assert(gate_fits(gates, base, keyed, wires, 2));
}

/// More rounds ask for no fewer gates.
pub proof fn lemma_gates_grow(n: nat, half: nat, partial: nat, fewer: nat, more: nat)
    requires
        fewer <= more,
    ensures
        gates_in_rounds(n, half, partial, fewer) <= gates_in_rounds(n, half, partial, more),
    decreases more,
{
    if fewer < more {
        lemma_gates_grow(n, half, partial, fewer, (more - 1) as nat);
    }
}

/// Rounds on no words ask for no gates, and hand back no words.
pub proof fn lemma_no_words(
    gates: Seq<Gate>,
    at: int,
    words: Seq<Seq<Term>>,
    constants: Seq<nat>,
    m: Seq<Seq<nat>>,
    half: nat,
    partial: nat,
    count: nat,
)
    requires
        words.len() == 0,
    ensures
        gates_in_rounds(0, half, partial, count) == 0,
        are_rounds(gates, at, words, constants, m, half, partial, count),
        constrained_rounds(gates, at, words, constants, m, half, partial, count) == words,
    decreases count,
{
    if count > 0 {
        lemma_no_words(gates, at, words, constants, m, half, partial, (count - 1) as nat);
        lemma_constrained_rounds_len(gates, at, words, constants, m, half, partial, count);
        assert(constrained_rounds(gates, at, words, constants, m, half, partial, count)
            =~= words);
    }
}

} // verus!
