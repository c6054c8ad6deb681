//! Why the constrained rounds compute what the concrete rounds compute:
//! under every assignment that satisfies the gates, each linear combination
//! evaluates to the field element of the concrete state.

use crate::circuit::Gate;
use crate::constraints::{
    add_key_terms, are_rounds, constant_terms, constrained_round, constrained_rounds,
    full_substitution_output, gates_in_round, gates_in_rounds, is_round, is_s_box,
    lemma_constrained_rounds_len, partial_substitution_output, s_box_output, variable_terms,
    variables_terms,
};
use crate::field::{
    field_add, field_mul, group_order, is_reduced, lemma_field_add_reduces,
    lemma_field_mul_reduces, lemma_quintic_by_products, quintic,
};
use crate::linear_combination::{scale_terms, terms_eval, terms_sum, Assignment, Term};
use crate::mds_matrix::{mix, mix_terms, scaled_terms, sum_products};
use crate::permutation::Permutation;
use crate::schedule::{
    add_keys, full_round, is_full_round, partial_round, rounds, substitute_all, substitute_first,
};
use bulletproofs::r1cs::Variable;
use vstd::arithmetic::div_mod::{lemma_add_mod_noop, lemma_mul_mod_noop_left, lemma_small_mod};
use vstd::prelude::*;

verus! {

/// An assignment gives every variable a reduced value, and the variable that
/// stands for one the value one.
pub open spec fn is_assignment(a: Assignment) -> bool {
    &&& a(Variable::One()) == 1
    &&& forall|v: Variable| is_reduced(#[trigger] a(v))
}

/// The assignment satisfies a gate: the input wires have the values of the
/// combinations they are bound to, and the output wire has their product.
pub open spec fn satisfies(a: Assignment, gate: Gate) -> bool {
    &&& a(gate.wires.0) == terms_eval(gate.left, a)
    &&& a(gate.wires.1) == terms_eval(gate.right, a)
    &&& a(gate.wires.2) == field_mul(a(gate.wires.0), a(gate.wires.1))
}

/// The assignment satisfies the gates from `from` up to `to`.
pub open spec fn satisfies_all(a: Assignment, gates: Seq<Gate>, from: int, to: int) -> bool {
    forall|i: int| from <= i < to ==> satisfies(a, #[trigger] gates[i])
}

/// The field elements that linear combinations evaluate to.
pub open spec fn evaluations(words: Seq<Seq<Term>>, a: Assignment) -> Seq<nat> {
    words.map_values(|t: Seq<Term>| terms_eval(t, a))
}

/// The values of variables.
pub open spec fn assigned(variables: Seq<Variable>, a: Assignment) -> Seq<nat> {
    variables.map_values(|v: Variable| a(v))
}

/// The sum of terms one after the other is the sum of the sums.
pub proof fn lemma_sum_of_concatenation(x: Seq<Term>, y: Seq<Term>, a: Assignment)
    ensures
        terms_sum(x + y, a) == terms_sum(x, a) + terms_sum(y, a),
    decreases y.len(),
{
    if y.len() == 0 {
        assert(x + y =~= x);
    } else {
        assert((x + y).drop_last() =~= x + y.drop_last());
        lemma_sum_of_concatenation(x, y.drop_last(), a);
    }
}

/// A sum of two combinations evaluates to the sum of what they evaluate to.
pub proof fn lemma_eval_of_sum(x: Seq<Term>, y: Seq<Term>, a: Assignment)
    ensures
        terms_eval(x + y, a) == field_add(terms_eval(x, a), terms_eval(y, a)),
{
    lemma_sum_of_concatenation(x, y, a);
    lemma_field_add_reduces(terms_sum(x, a), terms_sum(y, a));
    lemma_field_add_reduces(terms_eval(x, a), terms_sum(y, a));
}

/// A variable evaluates to its value.
pub proof fn lemma_eval_of_variable(v: Variable, a: Assignment)
    requires
        is_assignment(a),
    ensures
        terms_eval(variable_terms(v), a) == a(v),
{
    let t = variable_terms(v);
    assert(t.drop_last() =~= Seq::<Term>::empty());
    assert(terms_sum(t.drop_last(), a) == 0);
    assert(terms_sum(t, a) == 1 * a(v));
    lemma_small_mod(a(v), group_order());
}

/// A constant evaluates to itself, reduced.
pub proof fn lemma_eval_of_constant(c: nat, a: Assignment)
    requires
        is_assignment(a),
    ensures
        terms_eval(constant_terms(c), a) == c % group_order(),
{
    let t = constant_terms(c);
    assert(t.drop_last() =~= Seq::<Term>::empty());
    assert(terms_sum(t.drop_last(), a) == 0);
    assert(terms_sum(t, a) == c * 1);
}

/// A scaled combination evaluates to the factor times what the combination
/// evaluates to.
pub proof fn lemma_eval_of_scaled(x: Seq<Term>, factor: nat, a: Assignment)
    ensures
        terms_eval(scale_terms(x, factor), a) == field_mul(factor, terms_eval(x, a)),
        terms_eval(scale_terms(x, factor), a) == field_mul(factor, terms_sum(x, a)),
    decreases x.len(),
{
    let m = group_order() as int;
    let scaled = scale_terms(x, factor);
    if x.len() == 0 {
        assert(terms_sum(scaled, a) == 0);
        assert(factor * 0 == 0);
    } else {
        let rest = x.drop_last();
        let last = x.last();
        assert(scaled.drop_last() =~= scale_terms(rest, factor));
        lemma_eval_of_scaled(rest, factor, a);
        let s_rest = terms_sum(scale_terms(rest, factor), a);
        let c = field_mul(last.1, factor);
        let value = a(last.0);
        assert(terms_sum(scaled, a) == s_rest + c * value);
        // the last term, modulo the order
        lemma_mul_mod_noop_left((last.1 * factor) as int, value as int, m);
        assert((c * value) % group_order() == (last.1 * factor * value) % group_order());
        // the sum, modulo the order
        lemma_add_mod_noop(s_rest as int, (c * value) as int, m);
        lemma_add_mod_noop(
            (factor * terms_sum(rest, a)) as int,
            (last.1 * factor * value) as int,
            m,
        );
        assert(factor * terms_sum(rest, a) + last.1 * factor * value == factor * (terms_sum(
            rest,
            a,
        ) + last.1 * value)) by (nonlinear_arith);
        assert(terms_sum(x, a) == terms_sum(rest, a) + last.1 * value);
    }
    lemma_field_mul_reduces(factor, terms_sum(x, a));
}

/// Under an assignment that satisfies the three gates of a substitution, its
/// output evaluates to the fifth power of what its input evaluates to.
pub proof fn lemma_s_box_sound(gates: Seq<Gate>, at: int, x: Seq<Term>, a: Assignment)
    requires
        is_assignment(a),
        is_s_box(gates, at, x),
        satisfies_all(a, gates, at, at + 3),
    ensures
        terms_eval(s_box_output(gates, at), a) == quintic(terms_eval(x, a)),
{
    let first = gates[at];
    let second = gates[at + 1];
    let third = gates[at + 2];
    assert(satisfies(a, first));
    assert(satisfies(a, second));
    assert(satisfies(a, third));
    let value = terms_eval(x, a);
    lemma_eval_of_variable(first.wires.2, a);
    lemma_eval_of_variable(second.wires.2, a);
    lemma_eval_of_variable(first.wires.0, a);
    lemma_eval_of_variable(third.wires.2, a);
    let square = field_mul(value, value);
    assert(a(first.wires.2) == square);
    assert(a(second.wires.2) == field_mul(square, square));
    assert(a(third.wires.2) == field_mul(field_mul(square, square), value));
    lemma_quintic_by_products(value);
}

/// Keys added to combinations evaluate to keys added to what the
/// combinations evaluate to.
pub proof fn lemma_add_keys_sound(
    words: Seq<Seq<Term>>,
    constants: Seq<nat>,
    offset: nat,
    a: Assignment,
)
    requires
        is_assignment(a),
    ensures
        evaluations(add_key_terms(words, constants, offset), a) == add_keys(
            evaluations(words, a),
            constants,
            offset,
        ),
{
    let keyed = add_key_terms(words, constants, offset);
    let expected = add_keys(evaluations(words, a), constants, offset);
    assert forall|i: int| 0 <= i < words.len() implies terms_eval(keyed[i], a) == expected[i] by {
        let c = constants[offset + i];
        lemma_eval_of_sum(words[i], constant_terms(c), a);
        lemma_eval_of_constant(c, a);
        lemma_field_add_reduces(terms_eval(words[i], a), c);
    }
    assert(evaluations(keyed, a) =~= expected);
}

/// The first `k` scaled combinations of a row evaluate to the sum of the
/// first `k` products of the row with what the combinations evaluate to.
pub proof fn lemma_scaled_terms_sound(row: Seq<nat>, v: Seq<Seq<Term>>, k: nat, a: Assignment)
    requires
        k <= v.len(),
    ensures
        terms_eval(scaled_terms(row, v, k), a) == sum_products(row, evaluations(v, a), k)
            % group_order(),
    decreases k,
{
    let m = group_order() as int;
    if k == 0 {
        assert(terms_sum(scaled_terms(row, v, 0), a) == 0);
    } else {
        let before = (k - 1) as nat;
        lemma_scaled_terms_sound(row, v, before, a);
        let head = scaled_terms(row, v, before);
        let last = scale_terms(v[k - 1], row[k - 1]);
        lemma_sum_of_concatenation(head, last, a);
        lemma_eval_of_scaled(v[k - 1], row[k - 1], a);
        let evals = evaluations(v, a);
        assert(evals[k - 1] == terms_eval(v[k - 1], a));
        let s = sum_products(row, evals, before);
        let p = row[k - 1] * evals[k - 1];
        lemma_add_mod_noop(terms_sum(head, a) as int, terms_sum(last, a) as int, m);
        lemma_add_mod_noop(s as int, p as int, m);
        assert(terms_sum(last, a) % group_order() == p % group_order());
    }
}

/// The matrix times combinations evaluates to the matrix times what the
/// combinations evaluate to.
pub proof fn lemma_mix_sound(m: Seq<Seq<nat>>, v: Seq<Seq<Term>>, a: Assignment)
    ensures
        evaluations(mix_terms(m, v), a) == mix(m, evaluations(v, a)),
{
    let evals = evaluations(v, a);
    assert forall|i: int| 0 <= i < v.len() implies terms_eval(mix_terms(m, v)[i], a) == mix(
        m,
        evals,
    )[i] by {
        lemma_scaled_terms_sound(m[i], v, v.len(), a);
    }
    assert(evaluations(mix_terms(m, v), a) =~= mix(m, evals));
}

/// Under an assignment that satisfies the gates of one round, the round on
/// combinations evaluates to the round on what the combinations evaluate to.
pub proof fn lemma_round_sound(
    gates: Seq<Gate>,
    at: int,
    words: Seq<Seq<Term>>,
    constants: Seq<nat>,
    offset: nat,
    m: Seq<Seq<nat>>,
    full: bool,
    a: Assignment,
)
    requires
        is_assignment(a),
        is_round(gates, at, words, constants, offset, full),
        satisfies_all(a, gates, at, at + gates_in_round(words.len(), full)),
    ensures
        evaluations(constrained_round(gates, at, words, constants, offset, m, full), a) == if full {
            full_round(evaluations(words, a), constants, offset, m)
        } else {
            partial_round(evaluations(words, a), constants, offset, m)
        },
{
    let keyed = add_key_terms(words, constants, offset);
    let n = words.len();
    lemma_add_keys_sound(words, constants, offset, a);
    let keyed_values = evaluations(keyed, a);
    if full {
        let raised = full_substitution_output(gates, at, n);
        assert forall|i: int| 0 <= i < n implies terms_eval(raised[i], a) == quintic(
            keyed_values[i],
        ) by {
            assert(is_s_box(gates, at + 3 * i, keyed[i]));
            lemma_s_box_sound(gates, at + 3 * i, keyed[i], a);
        }
        assert(evaluations(raised, a) =~= substitute_all(keyed_values));
        lemma_mix_sound(m, raised, a);
    } else {
        let raised = partial_substitution_output(gates, at, keyed);
        if n > 0 {
            lemma_s_box_sound(gates, at, keyed[0], a);
        }
        assert(evaluations(raised, a) =~= substitute_first(keyed_values));
        lemma_mix_sound(m, raised, a);
    }
}

/// The concrete and the constrained path agree: where the gates from `at` on
/// are those of the first `count` rounds on `words`, under every assignment
/// that satisfies them the state of combinations after these rounds
/// evaluates to the state that the same rounds give on what `words`
/// evaluate to.
pub proof fn lemma_rounds_sound(
    gates: Seq<Gate>,
    at: int,
    words: Seq<Seq<Term>>,
    constants: Seq<nat>,
    m: Seq<Seq<nat>>,
    half: nat,
    partial: nat,
    count: nat,
    a: Assignment,
)
    requires
        is_assignment(a),
        are_rounds(gates, at, words, constants, m, half, partial, count),
        satisfies_all(a, gates, at, at + gates_in_rounds(words.len(), half, partial, count)),
    ensures
        evaluations(constrained_rounds(gates, at, words, constants, m, half, partial, count), a)
            == rounds(evaluations(words, a), constants, m, half, partial, count),
    decreases count,
{
    if count > 0 {
        let index = (count - 1) as nat;
        let n = words.len();
        lemma_rounds_sound(gates, at, words, constants, m, half, partial, index, a);
        lemma_constrained_rounds_len(gates, at, words, constants, m, half, partial, index);
        let state = constrained_rounds(gates, at, words, constants, m, half, partial, index);
        let start = at + gates_in_rounds(n, half, partial, index);
        let full = is_full_round(half, partial, index);
        lemma_round_sound(gates, start, state, constants, index * n, m, full, a);
    }
}

/// The constrained result of a permutation evaluates to its concrete
/// result: where the gates from `at` on are those that `constrain_result`
/// asks for on `variables`, and the buffer holds the values of these
/// variables, then under every assignment that satisfies the gates each
/// combination that `constrain_result` gives evaluates to the word that
/// `result` gives.
pub proof fn lemma_constrain_result_sound(
    p: Permutation,
    gates: Seq<Gate>,
    at: int,
    variables: Seq<Variable>,
    a: Assignment,
)
    requires
        p.wf(),
        is_assignment(a),
        p.buffer() == assigned(variables, a),
        p.are_constraints(gates, at, variables),
        satisfies_all(a, gates, at, at + p.gate_count(variables.len())),
    ensures
        evaluations(p.spec_constrain_result(gates, at, variables), a) == p.spec_result(),
{
    let words = variables_terms(variables);
    assert forall|i: int| 0 <= i < variables.len() implies terms_eval(words[i], a) == a(
        variables[i],
    ) by {
        lemma_eval_of_variable(variables[i], a);
    }
    assert(evaluations(words, a) =~= assigned(variables, a));
    lemma_rounds_sound(
        gates,
        at,
        words,
        p.constants(),
        p.matrix(),
        p.half(),
        p.partial_rounds(),
        p.total_rounds(),
        a,
    );
}

/// With no full round and one partial round, on at least one word,
/// `constrain_result` asks for three gates and no more: those of the
/// substitution on the first word with the first round constant added. What
/// it gives is the matrix times the keyed words, the first of them replaced
/// by what that substitution hands back.
pub proof fn lemma_single_partial_round(
    p: Permutation,
    gates: Seq<Gate>,
    at: int,
    variables: Seq<Variable>,
)
    requires
        p.wf(),
        p.full_rounds() == 0,
        p.partial_rounds() == 1,
        variables.len() >= 1,
        p.are_constraints(gates, at, variables),
    ensures
        p.gate_count(variables.len()) == 3,
        is_s_box(gates, at, variable_terms(variables[0]) + constant_terms(p.constants()[0])),
        p.spec_constrain_result(gates, at, variables) == mix_terms(
            p.matrix(),
            partial_substitution_output(
                gates,
                at,
                add_key_terms(variables_terms(variables), p.constants(), 0),
            ),
        ),
{
    let words = variables_terms(variables);
    let n = words.len();
    reveal_with_fuel(gates_in_rounds, 2);
    reveal_with_fuel(are_rounds, 2);
    reveal_with_fuel(constrained_rounds, 2);
    assert(p.half() == 0);
    assert(p.total_rounds() == 1);
    assert(!is_full_round(0, 1, 0));
    assert(gates_in_rounds(n, 0, 1, 0) == 0);
    assert(0 * n == 0) by (nonlinear_arith);
    let keyed = add_key_terms(words, p.constants(), 0);
    assert(is_round(gates, at + 0, words, p.constants(), 0, false));
    assert(keyed[0] == words[0] + constant_terms(p.constants()[0]));
    assert(words[0] == variable_terms(variables[0]));
}

} // verus!
