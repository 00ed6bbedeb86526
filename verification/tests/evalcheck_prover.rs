use evalcheck::binary_field::BinaryField2b;
use evalcheck::error::{Error, WitnessError};
use evalcheck::evalcheck::{EvalcheckMultilinearClaim, EvalcheckProof};
use evalcheck::field::Field;
use evalcheck::multilinear::{evaluate, evaluate_partial_high, tensor_expand};
use evalcheck::oracle::{
    MultilinearOracleSet, OracleVariant, ProjectionVariant, ShiftVariant, TransparentPoly,
};
use evalcheck::prove::EvalcheckProver;
use evalcheck::witness::{MemoizedQueries, MultilinearExtensionIndex};

fn f(v: u8) -> BinaryField2b {
    BinaryField2b::new(v)
}

fn column(values: &[u8]) -> Vec<BinaryField2b> {
    values.iter().map(|v| f(*v)).collect()
}

fn point(values: &[u8]) -> Vec<BinaryField2b> {
    column(values)
}

fn vals(values: &[BinaryField2b]) -> Vec<u8> {
    values.iter().map(|v| v.val()).collect()
}

fn claim(id: usize, p: &[u8], eval: u8) -> EvalcheckMultilinearClaim<BinaryField2b> {
    EvalcheckMultilinearClaim { id, eval_point: point(p), eval: f(eval) }
}

fn true_eval(col: &[u8], p: &[u8]) -> BinaryField2b {
    evaluate(&column(col), &tensor_expand(&point(p)))
}

const C_COLUMN: [u8; 16] = [1, 2, 3, 0, 2, 2, 1, 3, 0, 1, 1, 2, 3, 3, 0, 1];

/// Committed `C` of four variables, shifted, and twice the shifted plus one.
fn three_level_dag(block_size: usize) -> (MultilinearOracleSet<BinaryField2b>, usize, usize, usize) {
    let mut oracles = MultilinearOracleSet::new();
    let c = oracles.add_committed(4).unwrap();
    let shifted = oracles.add_shifted(c, 1, block_size, ShiftVariant::LogicalLeft).unwrap();
    let top = oracles
        .add_linear_combination_with_offset(4, f(1), vec![(shifted, f(2))])
        .unwrap();
    (oracles, c, shifted, top)
}

#[test]
fn three_level_dag_first_round() {
    let (oracles, c, shifted, top) = three_level_dag(2);
    let mut witness = MultilinearExtensionIndex::new();
    witness.update_multilin_poly(c, column(&C_COLUMN));
    assert!(witness.fits(&oracles));
    let mut prover = EvalcheckProver::new(oracles, witness);

    // parent value 0 = 2 * 3 + 1, so the shifted polynomial is claimed to be 3
    let claims = vec![claim(top, &[2, 3, 1, 2], 0)];
    assert!(prover.accepts(&claims));
    let proofs = prover.prove(claims).unwrap();
    assert_eq!(proofs.len(), 1);
    match &proofs[0] {
        EvalcheckProof::LinearCombination { subproofs } => {
            assert_eq!(subproofs.len(), 1);
            assert_eq!(subproofs[0].0.val(), 3);
            assert!(matches!(subproofs[0].1, EvalcheckProof::Shifted));
            let rebuilt = f(2).mul(subproofs[0].0).add(f(1));
            assert_eq!(rebuilt.val(), 0);
        }
        _ => panic!("the proof of a linear combination wraps its subproofs"),
    }
    // the committed leaf is only reached through the sumcheck of the next round
    assert_eq!(prover.committed_eval_claims().len(), 0);

    // two oracles were added: the projection of C onto its block, and the multiplier
    assert_eq!(prover.oracles().size(), 5);
    let projection = prover.oracles().oracle(3);
    assert_eq!(projection.n_vars, 2);
    match &projection.variant {
        OracleVariant::Projected { inner, values, variant } => {
            assert_eq!(*inner, c);
            assert_eq!(vals(values), vec![1, 2]);
            assert_eq!(*variant, ProjectionVariant::LastVars);
        }
        _ => panic!("the first added oracle is the projection"),
    }
    let multiplier = prover.oracles().oracle(4);
    assert_eq!(multiplier.n_vars, 2);
    match &multiplier.variant {
        OracleVariant::Transparent {
            poly: TransparentPoly::ShiftIndPartialEval { block_size, shift_offset, shift_variant, r },
        } => {
            assert_eq!(*block_size, 2);
            assert_eq!(*shift_offset, 1);
            assert_eq!(*shift_variant, ShiftVariant::LogicalLeft);
            assert_eq!(vals(r), vec![2, 3]);
        }
        _ => panic!("the second added oracle is the shift indicator"),
    }

    // the witness of the projection: C with its two high variables fixed to (1, 2)
    let expected = evaluate_partial_high(&column(&C_COLUMN), &tensor_expand(&point(&[1, 2])), 4);
    let stored = prover.witness_index().get_multilin_poly(3).unwrap();
    assert_eq!(vals(stored), vals(&expected));
    assert!(!prover.witness_index().has(4));

    // one sumcheck constraint, over the two variables of the block
    let sets = prover.take_new_sumchecks_constraints().unwrap();
    assert_eq!(sets.len(), 1);
    assert_eq!(sets[0].n_vars, 2);
    assert_eq!(sets[0].constraints.len(), 1);
    assert_eq!(sets[0].constraints[0].projected_id, 3);
    assert_eq!(sets[0].constraints[0].multiplier_id, 4);
    assert_eq!(sets[0].constraints[0].sum.val(), 3);
    assert_eq!(shifted, 1);

    // nothing is left once the constraints were taken
    assert_eq!(prover.take_new_sumchecks_constraints().unwrap().len(), 0);
}

#[test]
fn three_level_dag_second_round_reaches_the_committed_leaf() {
    let (oracles, c, _shifted, top) = three_level_dag(2);
    let mut witness = MultilinearExtensionIndex::new();
    witness.update_multilin_poly(c, column(&C_COLUMN));
    let mut prover = EvalcheckProver::new(oracles, witness);
    prover.prove(vec![claim(top, &[2, 3, 1, 2], 0)]).unwrap();
    let sets = prover.take_new_sumchecks_constraints().unwrap();
    assert_eq!(sets.len(), 1);

    // what a sumcheck prover would hand back: claims on the projection and
    // on the multiplier at a point of its own choosing
    let new_claims = vec![claim(3, &[3, 1], 2), claim(4, &[3, 1], 1)];
    assert!(prover.accepts(&new_claims));
    let proofs = prover.prove(new_claims).unwrap();
    assert_eq!(proofs.len(), 2);
    assert!(matches!(proofs[0], EvalcheckProof::Committed));
    assert!(matches!(proofs[1], EvalcheckProof::Transparent));

    let committed = prover.committed_eval_claims();
    assert_eq!(committed.len(), 1);
    assert_eq!(committed[0].id, c);
    assert_eq!(vals(&committed[0].eval_point), vec![3, 1, 1, 2]);
    assert_eq!(committed[0].eval.val(), 2);

    assert_eq!(prover.take_new_sumchecks_constraints().unwrap().len(), 0);
    let taken = prover.take_committed_eval_claims();
    assert_eq!(taken.len(), 1);
    assert_eq!(prover.committed_eval_claims().len(), 0);
}

#[test]
fn shift_over_the_whole_polynomial_needs_no_projection() {
    let (oracles, c, _shifted, top) = three_level_dag(4);
    let mut prover = EvalcheckProver::new(oracles, MultilinearExtensionIndex::new());
    prover.prove(vec![claim(top, &[2, 3, 1, 2], 0)]).unwrap();
    assert_eq!(prover.oracles().size(), 4);
    let sets = prover.take_new_sumchecks_constraints().unwrap();
    assert_eq!(sets.len(), 1);
    assert_eq!(sets[0].n_vars, 4);
    assert_eq!(sets[0].constraints[0].projected_id, c);
    assert_eq!(sets[0].constraints[0].multiplier_id, 3);
}

#[test]
fn projection_without_witness_of_the_inner_oracle_fails() {
    let (oracles, c, _shifted, top) = three_level_dag(2);
    let mut prover = EvalcheckProver::new(oracles, MultilinearExtensionIndex::new());
    let r = prover.prove(vec![claim(top, &[2, 3, 1, 2], 0)]);
    assert_eq!(r.err(), Some(Error::Witness(WitnessError::MissingWitness { id: c })));
}

#[test]
fn linear_combination_of_two_is_valued_from_the_witness() {
    let mut oracles = MultilinearOracleSet::new();
    let a = oracles.add_committed(2).unwrap();
    let b = oracles.add_committed(2).unwrap();
    let sum = oracles.add_linear_combination(2, vec![(a, f(1)), (b, f(3))]).unwrap();
    let a_col = [1u8, 2, 3, 0];
    let b_col = [2u8, 2, 0, 1];
    let mut witness = MultilinearExtensionIndex::new();
    witness.update_multilin_poly(a, column(&a_col));
    witness.update_multilin_poly(b, column(&b_col));
    let mut prover = EvalcheckProver::new(oracles, witness);
    let p = [2u8, 3];
    let ea = true_eval(&a_col, &p);
    let eb = true_eval(&b_col, &p);
    let v = ea.add(f(3).mul(eb));
    let proofs = prover.prove(vec![claim(sum, &p, v.val())]).unwrap();
    match &proofs[0] {
        EvalcheckProof::LinearCombination { subproofs } => {
            assert_eq!(subproofs.len(), 2);
            assert_eq!(subproofs[0].0.val(), ea.val());
            assert_eq!(subproofs[1].0.val(), eb.val());
            assert!(matches!(subproofs[0].1, EvalcheckProof::Committed));
            assert!(matches!(subproofs[1].1, EvalcheckProof::Committed));
        }
        _ => panic!("the proof of a linear combination wraps its subproofs"),
    }
    let committed = prover.committed_eval_claims();
    assert_eq!(committed.len(), 2);
    assert_eq!((committed[0].id, committed[0].eval.val()), (a, ea.val()));
    assert_eq!((committed[1].id, committed[1].eval.val()), (b, eb.val()));
    assert_eq!(vals(&committed[0].eval_point), vec![2, 3]);
}

#[test]
fn missing_witness_of_a_term_is_reported() {
    let mut oracles = MultilinearOracleSet::new();
    let a = oracles.add_committed(2).unwrap();
    let b = oracles.add_committed(2).unwrap();
    let sum = oracles.add_linear_combination(2, vec![(a, f(1)), (b, f(3))]).unwrap();
    let mut witness = MultilinearExtensionIndex::new();
    witness.update_multilin_poly(a, column(&[1, 2, 3, 0]));
    let mut prover = EvalcheckProver::new(oracles, witness);
    let r = prover.prove(vec![claim(sum, &[2, 3], 1)]);
    assert_eq!(r.err(), Some(Error::Witness(WitnessError::MissingWitness { id: b })));
}

#[test]
fn resubmitting_a_claim_returns_the_same_proof_and_adds_no_work() {
    let mut oracles = MultilinearOracleSet::new();
    let a = oracles.add_committed(2).unwrap();
    let rep = oracles.add_repeating(a, 1).unwrap();
    let mut prover = EvalcheckProver::new(oracles, MultilinearExtensionIndex::new());
    let first = prover.prove(vec![claim(rep, &[1, 2, 3], 2)]).unwrap();
    assert_eq!(prover.committed_eval_claims().len(), 1);
    // the same key with another value: the entry of the first claim stands
    let second = prover.prove(vec![claim(rep, &[1, 2, 3], 1)]).unwrap();
    assert!(matches!(&first[0], EvalcheckProof::Repeating(inner) if matches!(**inner, EvalcheckProof::Committed)));
    assert!(matches!(&second[0], EvalcheckProof::Repeating(inner) if matches!(**inner, EvalcheckProof::Committed)));
    // the claim is walked again, so the committed leaf is handed on again
    let committed = prover.committed_eval_claims();
    assert_eq!(committed.len(), 2);
    assert_eq!(vals(&committed[0].eval_point), vec![1, 2]);
    assert_eq!(committed[0].eval.val(), 2);
}

#[test]
fn proofs_come_in_the_order_of_the_claims() {
    let mut oracles = MultilinearOracleSet::new();
    let a = oracles.add_committed(1).unwrap();
    let t = oracles.add_transparent(1, TransparentPoly::Public).unwrap();
    let packed = oracles.add_packed(a, 1).unwrap();
    let mut witness = MultilinearExtensionIndex::new();
    witness.update_multilin_poly(a, column(&[1, 2]));
    let mut prover = EvalcheckProver::new(oracles, witness);
    let proofs = prover
        .prove(vec![claim(t, &[1], 2), claim(packed, &[], 3), claim(a, &[3], 1)])
        .unwrap();
    assert!(matches!(proofs[0], EvalcheckProof::Transparent));
    assert!(matches!(proofs[1], EvalcheckProof::Packed));
    assert!(matches!(proofs[2], EvalcheckProof::Committed));
    // packing all of the one variable: the inner oracle itself times the tower basis
    let sets = prover.take_new_sumchecks_constraints().unwrap();
    assert_eq!(sets.len(), 1);
    assert_eq!(sets[0].n_vars, 1);
    assert_eq!(sets[0].constraints[0].projected_id, a);
    assert_eq!(sets[0].constraints[0].sum.val(), 3);
}

#[test]
fn zero_padded_claim_keeps_both_values() {
    let mut oracles = MultilinearOracleSet::new();
    let a = oracles.add_committed(1).unwrap();
    let padded = oracles.add_zero_padded(a, 3).unwrap();
    let a_col = [3u8, 1];
    let mut witness = MultilinearExtensionIndex::new();
    witness.update_multilin_poly(a, column(&a_col));
    let mut prover = EvalcheckProver::new(oracles, witness);
    let proofs = prover.prove(vec![claim(padded, &[2, 1, 3], 2)]).unwrap();
    let inner = true_eval(&a_col, &[2]);
    match &proofs[0] {
        EvalcheckProof::ZeroPadded(eval, sub) => {
            assert_eq!(eval.val(), inner.val());
            assert!(matches!(**sub, EvalcheckProof::Committed));
        }
        _ => panic!("the proof of a zero-padded claim carries the inner value"),
    }
    let committed = prover.committed_eval_claims();
    assert_eq!(committed.len(), 1);
    assert_eq!(vals(&committed[0].eval_point), vec![2]);
    assert_eq!(committed[0].eval.val(), inner.val());
}

#[test]
fn projected_claims_go_to_the_inner_oracle_at_the_joined_point() {
    let mut oracles = MultilinearOracleSet::new();
    let a = oracles.add_committed(3).unwrap();
    let first = oracles.add_projected(a, point(&[1, 2]), ProjectionVariant::FirstVars).unwrap();
    let last = oracles.add_projected(a, point(&[1, 2]), ProjectionVariant::LastVars).unwrap();
    let mut prover = EvalcheckProver::new(oracles, MultilinearExtensionIndex::new());
    let proofs = prover.prove(vec![claim(first, &[3], 1), claim(last, &[3], 2)]).unwrap();
    assert!(matches!(proofs[0], EvalcheckProof::Committed));
    assert!(matches!(proofs[1], EvalcheckProof::Committed));
    let committed = prover.committed_eval_claims();
    assert_eq!(committed.len(), 2);
    assert_eq!(vals(&committed[0].eval_point), vec![1, 2, 3]);
    assert_eq!(committed[0].eval.val(), 1);
    assert_eq!(vals(&committed[1].eval_point), vec![3, 1, 2]);
    assert_eq!(committed[1].eval.val(), 2);
}

#[test]
fn claims_on_unknown_oracles_or_wrong_arity_are_not_accepted() {
    let mut oracles = MultilinearOracleSet::new();
    let a = oracles.add_committed(2).unwrap();
    let prover = EvalcheckProver::new(oracles, MultilinearExtensionIndex::new());
    assert!(prover.accepts(&vec![claim(a, &[1, 2], 0)]));
    assert!(!prover.accepts(&vec![claim(a, &[1], 0)]));
    assert!(!prover.accepts(&vec![claim(a + 1, &[1, 2], 0)]));
    assert!(prover.accepts(&vec![]));
}

#[test]
fn a_key_is_valued_from_the_memoized_expansion_and_the_column() {
    let mut witness = MultilinearExtensionIndex::new();
    witness.update_multilin_poly(3, column(&[1, 2, 3, 0]));
    let mut memo = MemoizedQueries::new();
    let unmemoized = EvalcheckProver::make_new_eval_claim(3, point(&[2, 3]), &witness, &memo);
    assert_eq!(unmemoized.err(), Some(Error::MissingQuery));
    memo.memoize_query(&point(&[2, 3]));
    let valued = EvalcheckProver::make_new_eval_claim(3, point(&[2, 3]), &witness, &memo).unwrap();
    assert_eq!((valued.id, vals(&valued.eval_point), valued.eval.val()), (3, vec![2, 3], 1));
    let missing = EvalcheckProver::make_new_eval_claim(4, point(&[2, 3]), &witness, &memo);
    assert_eq!(missing.err(), Some(Error::Witness(WitnessError::MissingWitness { id: 4 })));
}
