use bulletproofs::r1cs::{
    ConstraintSystem, LinearCombination as OutsideCombination, Prover, Variable, Verifier,
};
use bulletproofs::{BulletproofGens, PedersenGens};
use curve25519_dalek_ng::ristretto::CompressedRistretto;
use curve25519_dalek_ng::scalar::Scalar as DalekScalar;
use merlin::Transcript;
use poseidon_permutation::errors::PermError;
use poseidon_permutation::linear_combination::LinearCombination;
use poseidon_permutation::mds_matrix::MDSMatrix;
use poseidon_permutation::permutation::Permutation;
use poseidon_permutation::round_constants::RoundConstants;
use poseidon_permutation::scalar::Scalar;

fn dalek(s: &Scalar) -> DalekScalar {
    DalekScalar::from_bytes_mod_order(s.to_bytes())
}

fn outside(lc: &LinearCombination) -> OutsideCombination {
    (0..lc.len()).map(|i| lc.term(i)).map(|t| (t.0, dalek(&t.1))).collect()
}

/// Allocates in `cs` each gate that the evaluation asks for, hands its wires
/// back, and gives the result with the number of gates.
fn drive(
    perm: &Permutation,
    cs: &mut dyn ConstraintSystem,
    words: Vec<Variable>,
) -> Result<(Vec<LinearCombination>, usize), PermError> {
    let mut evaluation = perm.constrain_result(words)?;
    let mut gates = 0;
    while let Some((left, right)) = evaluation.operands() {
        let wires = cs.multiply(outside(&left), outside(&right));
        evaluation.supply(wires);
        gates += 1;
    }
    Ok((evaluation.finish(), gates))
}

/// Allocates the three gates of a substitution on `lc` in `cs`, and gives
/// their wires.
fn s_box(
    cs: &mut dyn ConstraintSystem,
    lc: &LinearCombination,
) -> Vec<(Variable, Variable, Variable)> {
    let mut wires = Vec::new();
    for answered in 0..3 {
        let (left, right) = Permutation::constrain_quintic_s_box(lc, &wires, 0, answered);
        wires.push(cs.multiply(outside(&left), outside(&right)));
    }
    wires
}

/// Evaluates both paths on the same inputs and compares what the prover
/// assigns to the constrained result with the concrete result.
fn check_equivalence(t: usize, full_rounds: usize, partial_rounds: usize, inputs: &[Scalar]) {
    let mut perm = Permutation::new(t, full_rounds, partial_rounds).unwrap();
    perm.inputs(inputs.to_vec()).unwrap();
    let concrete = perm.result().unwrap();

    let pc_gens = PedersenGens::default();
    let mut transcript = Transcript::new(b"equivalence");
    let mut prover = Prover::new(&pc_gens, &mut transcript);
    let variables: Vec<Variable> = inputs
        .iter()
        .map(|s| prover.commit(dalek(s), DalekScalar::from(7u64)).1)
        .collect();
    let before = prover.metrics().multipliers;
    let (constrained, gates) = drive(&perm, &mut prover, variables).unwrap();
    let half = full_rounds / 2;
    let expected_gates = 3 * inputs.len() * 2 * half
        + if inputs.is_empty() { 0 } else { 3 * partial_rounds };
    assert_eq!(gates, expected_gates);
    assert_eq!(prover.metrics().multipliers - before, expected_gates);
    assert_eq!(constrained.len(), concrete.len());
    for (lc, expected) in constrained.iter().zip(concrete.iter()) {
        assert_eq!(prover.eval(&outside(lc)), dalek(expected));
    }
}

#[test]
fn constrained_result_evaluates_to_concrete_result() {
    let inputs: Vec<Scalar> = [3u64, 1, 4].iter().map(|x| Scalar::from_u64(*x)).collect();
    check_equivalence(3, 2, 1, &inputs);
    check_equivalence(3, 4, 3, &inputs);
    check_equivalence(3, 2, 0, &inputs);
}

#[test]
fn constrained_result_on_hashed_inputs() {
    let inputs: Vec<Scalar> = [&b"a"[..], &b"bc"[..], &b"def"[..], &b""[..]]
        .iter()
        .map(|b| Scalar::hash_from_bytes(b))
        .collect();
    check_equivalence(4, 2, 2, &inputs);
    check_equivalence(5, 2, 2, &inputs);
}

#[test]
fn constrained_result_without_full_rounds() {
    let inputs: Vec<Scalar> = [9u64, 8].iter().map(|x| Scalar::from_u64(*x)).collect();
    check_equivalence(2, 0, 1, &inputs);
    check_equivalence(2, 0, 3, &inputs);
}

#[test]
fn constrained_result_on_zero_and_one() {
    let inputs = vec![Scalar::from_u64(0), Scalar::from_u64(1)];
    check_equivalence(2, 2, 1, &inputs);
}

#[test]
fn constrained_result_on_partly_filled_and_empty_buffers() {
    check_equivalence(4, 2, 2, &[Scalar::from_u64(5)]);
    check_equivalence(4, 2, 2, &[]);
}

#[test]
fn constrained_result_on_nine_words() {
    // few partial rounds: each one multiplies the number of terms
    let inputs: Vec<Scalar> = (1..=9u64).map(Scalar::from_u64).collect();
    check_equivalence(9, 8, 2, &inputs);
}

#[test]
fn constrained_result_without_rounds_is_the_variables() {
    let perm = Permutation::new(2, 0, 0).unwrap();
    let pc_gens = PedersenGens::default();
    let mut transcript = Transcript::new(b"no rounds");
    let mut prover = Prover::new(&pc_gens, &mut transcript);
    let variables: Vec<Variable> = (0..3u64)
        .map(|x| prover.commit(DalekScalar::from(x), DalekScalar::from(1u64)).1)
        .collect();
    assert_eq!(
        variables,
        vec![Variable::Committed(0), Variable::Committed(1), Variable::Committed(2)]
    );
    let (out, gates) = drive(&perm, &mut prover, variables.clone()).unwrap();
    assert_eq!(gates, 0);
    assert_eq!(prover.metrics().multipliers, 0);
    assert_eq!(out.len(), 3);
    for (lc, v) in out.iter().zip(variables) {
        assert_eq!(*lc, LinearCombination::from_variable(v));
        assert_eq!(lc.len(), 1);
        assert_eq!(lc.term(0), (v, Scalar::from_u64(1)));
    }
}

#[test]
fn more_variables_than_width_run_out_of_constants() {
    let perm = Permutation::new(2, 2, 1).unwrap();
    let pc_gens = PedersenGens::default();
    let mut transcript = Transcript::new(b"exhaustion");
    let mut prover = Prover::new(&pc_gens, &mut transcript);
    let variables: Vec<Variable> = (0..3u64)
        .map(|x| prover.commit(DalekScalar::from(x), DalekScalar::from(1u64)).1)
        .collect();
    let r = drive(&perm, &mut prover, variables);
    assert_eq!(r.err(), Some(PermError::NoMoreConstants));
    // no gate was asked for
    assert_eq!(prover.metrics().multipliers, 0);
}

#[test]
fn s_box_asks_for_three_gates() {
    let pc_gens = PedersenGens::default();
    let mut transcript = Transcript::new(b"s-box");
    let mut prover = Prover::new(&pc_gens, &mut transcript);
    let (_, x) = prover.commit(DalekScalar::from(3u64), DalekScalar::from(1u64));
    let wires = s_box(&mut prover, &LinearCombination::from_variable(x));
    assert_eq!(prover.metrics().multipliers, 3);
    assert_eq!(wires.len(), 3);
    assert_eq!(wires[2].2, Variable::MultiplierOutput(2));
    assert_eq!(prover.eval(&wires[2].2.into()), DalekScalar::from(243u64));
    assert_eq!(
        prover.eval(&Variable::MultiplierOutput(0).into()),
        DalekScalar::from(9u64)
    );
    assert_eq!(
        prover.eval(&Variable::MultiplierOutput(1).into()),
        DalekScalar::from(81u64)
    );
    assert_eq!(prover.eval(&Variable::MultiplierLeft(2).into()), DalekScalar::from(81u64));
    assert_eq!(prover.eval(&Variable::MultiplierRight(2).into()), DalekScalar::from(3u64));
}

#[test]
fn s_box_on_samples_agrees_with_concrete() {
    let samples = vec![
        Scalar::from_u64(0),
        Scalar::from_u64(1),
        Scalar::from_u64(2),
        Scalar::from_u64(u64::MAX),
        Scalar::hash_from_bytes(b"sample"),
    ];
    for x in samples {
        let pc_gens = PedersenGens::default();
        let mut transcript = Transcript::new(b"s-box");
        let mut prover = Prover::new(&pc_gens, &mut transcript);
        let (_, v) = prover.commit(dalek(&x), DalekScalar::from(1u64));
        // a combination with two terms: v + 5
        let lc = LinearCombination::from_variable(v)
            .add(&LinearCombination::from_scalar(Scalar::from_u64(5)));
        let wires = s_box(&mut prover, &lc);
        let expected = Permutation::quintic_s_box(&x.add(&Scalar::from_u64(5)));
        assert_eq!(prover.eval(&wires[2].2.into()), dalek(&expected));
    }
}

#[test]
fn linear_combinations_add_and_scale() {
    let a = LinearCombination::from_variable(Variable::Committed(0));
    let b = LinearCombination::from_scalar(Scalar::from_u64(4));
    let sum = a.add(&b);
    assert_eq!(sum.len(), 2);
    assert_eq!(sum.term(0), (Variable::Committed(0), Scalar::from_u64(1)));
    assert_eq!(sum.term(1), (Variable::One(), Scalar::from_u64(4)));
    let scaled = sum.scale(&Scalar::from_u64(3));
    assert_eq!(scaled.len(), 2);
    assert_eq!(scaled.term(0), (Variable::Committed(0), Scalar::from_u64(3)));
    assert_eq!(scaled.term(1), (Variable::One(), Scalar::from_u64(12)));
    assert_eq!(LinearCombination::new().len(), 0);
    assert_eq!(LinearCombination::new().add(&a), a);
    assert_eq!(a.clone(), a);
}

#[test]
fn constrained_matrix_product_agrees_with_concrete() {
    let matrix = MDSMatrix::generate(3);
    let values = vec![Scalar::from_u64(2), Scalar::from_u64(3), Scalar::from_u64(5)];
    let concrete = matrix.mul_vector(&values);

    let pc_gens = PedersenGens::default();
    let mut transcript = Transcript::new(b"matrix");
    let mut prover = Prover::new(&pc_gens, &mut transcript);
    let combinations: Vec<LinearCombination> = values
        .iter()
        .map(|s| prover.commit(dalek(s), DalekScalar::from(1u64)).1)
        .map(LinearCombination::from_variable)
        .collect();
    let mixed = matrix.constrain_mul_vector(combinations);
    assert_eq!(mixed.len(), 3);
    for (lc, expected) in mixed.iter().zip(concrete.iter()) {
        assert_eq!(lc.len(), 3);
        assert_eq!(prover.eval(&outside(lc)), dalek(expected));
    }
}

#[test]
fn constrained_round_key_appends_a_constant_term() {
    let perm = Permutation::new(2, 2, 0).unwrap();
    let table = RoundConstants::generate(2, 0, 2);
    let mut cursor = table.iter();
    let words = vec![
        LinearCombination::from_variable(Variable::Committed(0)),
        LinearCombination::from_variable(Variable::Committed(1)),
    ];
    let keyed = perm.constrain_add_round_key(&mut cursor, words).unwrap();
    let mut constants = table.iter();
    for (i, lc) in keyed.iter().enumerate() {
        assert_eq!(lc.len(), 2);
        assert_eq!(lc.term(0), (Variable::Committed(i), Scalar::from_u64(1)));
        assert_eq!(lc.term(1), (Variable::One(), constants.next().unwrap()));
    }
    let three = vec![
        LinearCombination::new(),
        LinearCombination::new(),
        LinearCombination::new(),
    ];
    assert_eq!(perm.constrain_add_round_key(&mut cursor, three), Err(PermError::NoMoreConstants));
}

#[test]
fn round_ends_mix_what_the_substitutions_hand_back() {
    let perm = Permutation::new(2, 2, 1).unwrap();
    let matrix = MDSMatrix::generate(2);
    let keyed = || {
        vec![
            LinearCombination::from_variable(Variable::Committed(0)),
            LinearCombination::from_variable(Variable::Committed(1)),
        ]
    };
    let wires: Vec<(Variable, Variable, Variable)> = (0..6)
        .map(|i| {
            (
                Variable::MultiplierLeft(i),
                Variable::MultiplierRight(i),
                Variable::MultiplierOutput(i),
            )
        })
        .collect();
    // a full round: the output wires of the third gate of each word
    let raised = vec![
        LinearCombination::from_variable(Variable::MultiplierOutput(2)),
        LinearCombination::from_variable(Variable::MultiplierOutput(5)),
    ];
    assert_eq!(
        perm.constrain_apply_full_round(keyed(), &wires),
        matrix.constrain_mul_vector(raised)
    );
    // a partial round: the first word alone is replaced
    let three = wires[..3].to_vec();
    let raised = vec![
        LinearCombination::from_variable(Variable::MultiplierOutput(2)),
        LinearCombination::from_variable(Variable::Committed(1)),
    ];
    assert_eq!(
        perm.constrain_apply_partial_round(keyed(), &three),
        matrix.constrain_mul_vector(raised)
    );
    assert_eq!(perm.constrain_apply_partial_round(vec![], &vec![]), vec![]);
    assert_eq!(perm.constrain_apply_full_round(vec![], &vec![]), vec![]);
}

#[test]
fn substitution_asks_for_its_gates_in_order() {
    let x = LinearCombination::from_variable(Variable::Committed(7))
        .add(&LinearCombination::from_scalar(Scalar::from_u64(4)));
    let wires: Vec<(Variable, Variable, Variable)> = (10..12)
        .map(|i| {
            (
                Variable::MultiplierLeft(i),
                Variable::MultiplierRight(i),
                Variable::MultiplierOutput(i),
            )
        })
        .collect();
    let none: Vec<(Variable, Variable, Variable)> = vec![];
    let square = LinearCombination::from_variable(Variable::MultiplierOutput(10));
    let quartic = LinearCombination::from_variable(Variable::MultiplierOutput(11));
    let left_wire = LinearCombination::from_variable(Variable::MultiplierLeft(10));
    assert_eq!(Permutation::constrain_quintic_s_box(&x, &none, 0, 0), (x.clone(), x.clone()));
    assert_eq!(
        Permutation::constrain_quintic_s_box(&x, &wires, 0, 1),
        (square.clone(), square.clone())
    );
    assert_eq!(Permutation::constrain_quintic_s_box(&x, &wires, 0, 2), (quartic, left_wire));
    // the wires of a later substitution start further on
    assert_eq!(
        Permutation::constrain_quintic_s_box(&x, &wires, 1, 1),
        (
            LinearCombination::from_variable(Variable::MultiplierOutput(11)),
            LinearCombination::from_variable(Variable::MultiplierOutput(11))
        )
    );
}

#[test]
fn evaluation_asks_for_each_gate_once() {
    let perm = Permutation::new(2, 2, 1).unwrap();
    let words = vec![Variable::Committed(0), Variable::Committed(1)];
    let mut evaluation = perm.constrain_result(words).unwrap();
    let mut asked = 0;
    let mut first = None;
    while let Some(operands) = evaluation.operands() {
        // asking again changes nothing
        assert_eq!(evaluation.operands(), Some(operands.clone()));
        if first.is_none() {
            first = Some(operands);
        }
        evaluation.supply((
            Variable::MultiplierLeft(asked),
            Variable::MultiplierRight(asked),
            Variable::MultiplierOutput(asked),
        ));
        asked += 1;
    }
    // two full rounds on two words and one partial round
    assert_eq!(asked, 3 * 2 * 2 + 3);
    assert_eq!(evaluation.operands(), None);
    assert_eq!(evaluation.finish().len(), 2);
    // the first gate squares the first word with its round constant
    let constant = RoundConstants::generate(2, 1, 2).iter().next().unwrap();
    let keyed = LinearCombination::from_variable(Variable::Committed(0))
        .add(&LinearCombination::from_scalar(constant));
    assert_eq!(first, Some((keyed.clone(), keyed)));
}

#[test]
fn evaluation_without_gates_is_finished_at_once() {
    let perm = Permutation::new(2, 0, 0).unwrap();
    let evaluation = perm.constrain_result(vec![Variable::Committed(0)]).unwrap();
    assert_eq!(evaluation.operands(), None);
    assert_eq!(
        evaluation.finish(),
        vec![LinearCombination::from_variable(Variable::Committed(0))]
    );
    let perm = Permutation::new(2, 2, 3).unwrap();
    let evaluation = perm.constrain_result(vec![]).unwrap();
    assert_eq!(evaluation.operands(), None);
    assert_eq!(evaluation.finish(), vec![]);
    assert_eq!(
        perm.constrain_result(vec![Variable::One(); 3]).err(),
        Some(PermError::NoMoreConstants)
    );
}

/// Proves that the committed inputs are permuted to `claimed`.
fn prove(
    perm: &Permutation,
    inputs: &[Scalar],
    claimed: &[Scalar],
    pc_gens: &PedersenGens,
    bp_gens: &BulletproofGens,
) -> (bulletproofs::r1cs::R1CSProof, Vec<CompressedRistretto>) {
    let mut transcript = Transcript::new(b"permutation");
    let mut prover = Prover::new(pc_gens, &mut transcript);
    let mut commitments = Vec::new();
    let mut variables = Vec::new();
    for (i, s) in inputs.iter().enumerate() {
        let (c, v) = prover.commit(dalek(s), DalekScalar::from(100 + i as u64));
        commitments.push(c);
        variables.push(v);
    }
    let (out, _) = drive(perm, &mut prover, variables).unwrap();
    for (lc, c) in out.iter().zip(claimed.iter()) {
        prover.constrain(outside(lc) - dalek(c));
    }
    (prover.prove(bp_gens).unwrap(), commitments)
}

/// Checks a proof that the committed inputs are permuted to `claimed`.
fn verify(
    perm: &Permutation,
    proof: &bulletproofs::r1cs::R1CSProof,
    commitments: &[CompressedRistretto],
    claimed: &[Scalar],
    pc_gens: &PedersenGens,
    bp_gens: &BulletproofGens,
) -> bool {
    let mut transcript = Transcript::new(b"permutation");
    let mut verifier = Verifier::new(&mut transcript);
    let variables: Vec<Variable> = commitments.iter().map(|c| verifier.commit(*c)).collect();
    let (out, _) = drive(perm, &mut verifier, variables).unwrap();
    for (lc, c) in out.iter().zip(claimed.iter()) {
        verifier.constrain(outside(lc) - dalek(c));
    }
    verifier.verify(proof, pc_gens, bp_gens).is_ok()
}

#[test]
fn proof_of_the_concrete_result_verifies() {
    let mut perm = Permutation::new(3, 2, 2).unwrap();
    let inputs = vec![Scalar::from_u64(1), Scalar::from_u64(2), Scalar::from_u64(3)];
    perm.inputs(inputs.clone()).unwrap();
    let result = perm.result().unwrap();
    let pc_gens = PedersenGens::default();
    let bp_gens = BulletproofGens::new(32, 1);
    let (proof, commitments) = prove(&perm, &inputs, &result, &pc_gens, &bp_gens);
    assert!(verify(&perm, &proof, &commitments, &result, &pc_gens, &bp_gens));
}

#[test]
fn proof_of_another_result_does_not_verify() {
    let mut perm = Permutation::new(3, 2, 2).unwrap();
    let inputs = vec![Scalar::from_u64(1), Scalar::from_u64(2), Scalar::from_u64(3)];
    perm.inputs(inputs.clone()).unwrap();
    let result = perm.result().unwrap();
    let mut wrong = result.clone();
    wrong[1] = wrong[1].add(&Scalar::from_u64(1));
    let pc_gens = PedersenGens::default();
    let bp_gens = BulletproofGens::new(32, 1);
    let (proof, commitments) = prove(&perm, &inputs, &wrong, &pc_gens, &bp_gens);
    assert!(!verify(&perm, &proof, &commitments, &wrong, &pc_gens, &bp_gens));
    let (proof, commitments) = prove(&perm, &inputs, &result, &pc_gens, &bp_gens);
    assert!(!verify(&perm, &proof, &commitments, &wrong, &pc_gens, &bp_gens));
}

#[test]
fn verifier_takes_the_same_gates_as_the_prover() {
    let perm = Permutation::new(2, 2, 1).unwrap();
    let pc_gens = PedersenGens::default();
    let mut transcript = Transcript::new(b"both");
    let mut prover = Prover::new(&pc_gens, &mut transcript);
    let (commit_a, a) = prover.commit(DalekScalar::from(2u64), DalekScalar::from(1u64));
    let (commit_b, b) = prover.commit(DalekScalar::from(3u64), DalekScalar::from(1u64));
    let (proved, gates) = drive(&perm, &mut prover, vec![a, b]).unwrap();

    let mut transcript = Transcript::new(b"both");
    let mut verifier = Verifier::new(&mut transcript);
    let a = verifier.commit(commit_a);
    let b = verifier.commit(commit_b);
    let (verified, verifier_gates) = drive(&perm, &mut verifier, vec![a, b]).unwrap();
    assert_eq!(gates, verifier_gates);
    assert_eq!(proved, verified);
}

#[test]
fn second_substitution_names_the_wire_of_the_first() {
    let pc_gens = PedersenGens::default();
    let mut transcript = Transcript::new(b"two substitutions");
    let mut prover = Prover::new(&pc_gens, &mut transcript);
    let (_, x) = prover.commit(DalekScalar::from(2u64), DalekScalar::from(1u64));
    let first = s_box(&mut prover, &LinearCombination::from_variable(x));
    assert_eq!(first[2].2, Variable::MultiplierOutput(2));
    let second = s_box(&mut prover, &LinearCombination::from_variable(first[2].2));
    assert_eq!(prover.metrics().multipliers, 6);
    // (2^5)^5 = 2^25
    assert_eq!(prover.eval(&second[2].2.into()), DalekScalar::from(1u64 << 25));
}

#[test]
fn substitution_of_a_constant() {
    let pc_gens = PedersenGens::default();
    let mut transcript = Transcript::new(b"constant");
    let mut prover = Prover::new(&pc_gens, &mut transcript);
    let three = LinearCombination::from_scalar(Scalar::from_u64(3));
    let wires = s_box(&mut prover, &three);
    assert_eq!(prover.metrics().multipliers, 3);
    assert_eq!(prover.eval(&wires[2].2.into()), DalekScalar::from(243u64));
}
