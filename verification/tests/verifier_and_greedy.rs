use evalcheck::binary_field::BinaryField2b;
use evalcheck::error::{Error, VerificationError, WitnessError};
use evalcheck::evalcheck::{EvalcheckMultilinearClaim, EvalcheckProof};
use evalcheck::field::Field;
use evalcheck::greedy_evalcheck::{GreedyAction, GreedyEvalcheckProver};
use evalcheck::multilinear::{evaluate, tensor_expand};
use evalcheck::oracle::{MultilinearOracleSet, ShiftVariant, TransparentPoly};
use evalcheck::prove::EvalcheckProver;
use evalcheck::sumcheck::{
    evaluate_univariate, reduce_round_claim, verify, SumcheckClaim, SumcheckProof, SumcheckRound,
};
use evalcheck::transcript::{serialize_evalcheck_proof, serialize_evalcheck_proofs, write_u64};
use evalcheck::oracle::OracleVariant;
use evalcheck::sumcheck::ConstraintSetBuilder;
use evalcheck::verify::{add_sumcheck_constraints, verify_multilinear, VerifiedLeaves};
use evalcheck::witness::MultilinearExtensionIndex;

fn f(v: u8) -> BinaryField2b {
    BinaryField2b::new(v)
}

fn col(values: &[u8]) -> Vec<BinaryField2b> {
    values.iter().map(|v| f(*v)).collect()
}

fn vals(values: &[BinaryField2b]) -> Vec<u8> {
    values.iter().map(|v| v.val()).collect()
}

fn claim(id: usize, p: &[u8], eval: u8) -> EvalcheckMultilinearClaim<BinaryField2b> {
    EvalcheckMultilinearClaim { id, eval_point: col(p), eval: f(eval) }
}

fn true_eval(column: &[u8], p: &[u8]) -> BinaryField2b {
    evaluate(&col(column), &tensor_expand(&col(p)))
}

const A: [u8; 4] = [1, 2, 3, 0];
const B: [u8; 4] = [2, 2, 0, 1];
const C: [u8; 2] = [3, 1];

/// Oracles `a`, `b` of two variables, `c` of one; `1 + a + 3 b`; `c` padded
/// to two variables; and the sum of the combination and the padded one.
fn sample() -> (MultilinearOracleSet<BinaryField2b>, MultilinearExtensionIndex<BinaryField2b>, usize) {
    let mut oracles = MultilinearOracleSet::new();
    let a = oracles.add_committed(2).unwrap();
    let b = oracles.add_committed(2).unwrap();
    let c = oracles.add_committed(1).unwrap();
    let lc = oracles
        .add_linear_combination_with_offset(2, f(1), vec![(a, f(1)), (b, f(3))])
        .unwrap();
    let padded = oracles.add_zero_padded(c, 2).unwrap();
    let top = oracles.add_linear_combination(2, vec![(lc, f(1)), (padded, f(1))]).unwrap();
    let mut witness = MultilinearExtensionIndex::new();
    witness.update_multilin_poly(a, col(&A));
    witness.update_multilin_poly(b, col(&B));
    witness.update_multilin_poly(c, col(&C));
    // the columns of the virtual oracles, row by row
    let lc_col: Vec<BinaryField2b> =
        (0..4).map(|i| f(1).add(f(A[i])).add(f(3).mul(f(B[i])))).collect();
    let padded_col = col(&[C[0], C[1], 0, 0]);
    let top_col: Vec<BinaryField2b> = (0..4).map(|i| lc_col[i].add(padded_col[i])).collect();
    witness.update_multilin_poly(lc, lc_col);
    witness.update_multilin_poly(padded, padded_col);
    witness.update_multilin_poly(top, top_col);
    (oracles, witness, top)
}

fn top_value(p: &[u8]) -> BinaryField2b {
    let lc = f(1).add(true_eval(&A, p)).add(f(3).mul(true_eval(&B, p)));
    let padded = true_eval(&C, &p[..1]).mul(f(1).sub(f(p[1])));
    lc.add(padded)
}

#[test]
fn a_true_claim_makes_the_round_trip() {
    let (oracles, witness, top) = sample();
    let p = [2u8, 3];
    let v = top_value(&p);
    let mut prover = EvalcheckProver::new(oracles, witness);
    let proofs = prover.prove(vec![claim(top, &p, v.val())]).unwrap();

    let mut out = VerifiedLeaves::new();
    let r = verify_multilinear(prover.oracles(), claim(top, &p, v.val()), &proofs[0], &mut out);
    assert_eq!(r, Ok(()));
    // the verifier hands on what the prover collected, in the same order
    let committed = prover.committed_eval_claims();
    assert_eq!(out.committed.len(), 3);
    assert_eq!(committed.len(), 3);
    for i in 0..3 {
        assert_eq!(out.committed[i].id, committed[i].id);
        assert_eq!(vals(&out.committed[i].eval_point), vals(&committed[i].eval_point));
        assert_eq!(out.committed[i].eval.val(), committed[i].eval.val());
    }
    assert_eq!(out.committed.iter().map(|c| c.id).collect::<Vec<_>>(), vec![0, 1, 2]);
    // and every claim on a leaf is true
    assert_eq!(out.committed[0].eval.val(), true_eval(&A, &p).val());
    assert_eq!(out.committed[1].eval.val(), true_eval(&B, &p).val());
    assert_eq!(out.committed[2].eval.val(), true_eval(&C, &p[..1]).val());
    assert_eq!(vals(&out.committed[2].eval_point), vec![2]);
    assert_eq!(out.bivariate.len(), 0);
    assert_eq!(out.transparent.len(), 0);
}

#[test]
fn a_false_claim_is_rejected() {
    let (oracles, witness, top) = sample();
    let p = [2u8, 3];
    let v = top_value(&p);
    let wrong = v.add(f(1));
    let mut prover = EvalcheckProver::new(oracles, witness);
    let proofs = prover.prove(vec![claim(top, &p, wrong.val())]).unwrap();
    let mut out = VerifiedLeaves::new();
    let r = verify_multilinear(prover.oracles(), claim(top, &p, wrong.val()), &proofs[0], &mut out);
    assert_eq!(r, Err(VerificationError::IncorrectEvaluation));
}

#[test]
fn a_false_value_passed_down_shows_at_the_leaf() {
    // a repeating oracle hands its value down unchanged: the verifier
    // accepts the form, and the claim on the committed leaf is false
    let mut oracles = MultilinearOracleSet::new();
    let a = oracles.add_committed(2).unwrap();
    let rep = oracles.add_repeating(a, 1).unwrap();
    let mut witness = MultilinearExtensionIndex::new();
    witness.update_multilin_poly(a, col(&A));
    let p = [2u8, 3, 1];
    let v = true_eval(&A, &p[..2]);
    let wrong = v.add(f(2));
    let mut prover = EvalcheckProver::new(oracles, witness);
    let proofs = prover.prove(vec![claim(rep, &p, wrong.val())]).unwrap();
    let mut out = VerifiedLeaves::new();
    let r = verify_multilinear(prover.oracles(), claim(rep, &p, wrong.val()), &proofs[0], &mut out);
    assert_eq!(r, Ok(()));
    assert_eq!(out.committed.len(), 1);
    assert_ne!(out.committed[0].eval.val(), true_eval(&A, &vals(&out.committed[0].eval_point)).val());
}

#[test]
fn a_proof_of_the_wrong_form_is_rejected() {
    let (oracles, _witness, top) = sample();
    let mut out = VerifiedLeaves::new();
    assert_eq!(
        verify_multilinear(&oracles, claim(top, &[2, 3], 1), &EvalcheckProof::Committed, &mut out),
        Err(VerificationError::SubproofMismatch)
    );
    assert_eq!(
        verify_multilinear(&oracles, claim(0, &[2, 3], 1), &EvalcheckProof::Transparent, &mut out),
        Err(VerificationError::SubproofMismatch)
    );
    let short = EvalcheckProof::LinearCombination { subproofs: vec![(f(1), EvalcheckProof::Committed)] };
    assert_eq!(
        verify_multilinear(&oracles, claim(top, &[2, 3], 1), &short, &mut out),
        Err(VerificationError::SubproofMismatch)
    );
    assert_eq!(
        verify_multilinear(&oracles, claim(4, &[2, 3], 1), &EvalcheckProof::Shifted, &mut out),
        Err(VerificationError::SubproofMismatch)
    );
    // the value of a padded claim has to be the inner value times the padding factor
    let padded = EvalcheckProof::ZeroPadded(f(2), Box::new(EvalcheckProof::Committed));
    let ok = f(2).mul(f(1).sub(f(3)));
    assert_eq!(verify_multilinear(&oracles, claim(4, &[2, 3], ok.val()), &padded, &mut out), Ok(()));
    assert_eq!(
        verify_multilinear(&oracles, claim(4, &[2, 3], ok.add(f(1)).val()), &padded, &mut out),
        Err(VerificationError::IncorrectEvaluation)
    );
}

#[test]
fn leaves_of_each_kind_are_filed_apart() {
    let mut oracles: MultilinearOracleSet<BinaryField2b> = MultilinearOracleSet::new();
    let a = oracles.add_committed(1).unwrap();
    let t = oracles.add_transparent(1, TransparentPoly::Public).unwrap();
    let s = oracles.add_shifted(a, 1, 1, ShiftVariant::CircularLeft).unwrap();
    let k = oracles.add_packed(a, 1).unwrap();
    let lc = oracles.add_linear_combination(1, vec![(s, f(1)), (t, f(1)), (a, f(1))]).unwrap();
    let proof = EvalcheckProof::LinearCombination {
        subproofs: vec![
            (f(1), EvalcheckProof::Shifted),
            (f(2), EvalcheckProof::Transparent),
            (f(3), EvalcheckProof::Committed),
        ],
    };
    let mut out = VerifiedLeaves::new();
    assert_eq!(verify_multilinear(&oracles, claim(lc, &[2], 0), &proof, &mut out), Ok(()));
    assert_eq!(verify_multilinear(&oracles, claim(k, &[], 3), &EvalcheckProof::Packed, &mut out), Ok(()));
    assert_eq!(out.bivariate.iter().map(|c| c.id).collect::<Vec<_>>(), vec![s, k]);
    assert_eq!(out.transparent.iter().map(|c| c.id).collect::<Vec<_>>(), vec![t]);
    assert_eq!(out.committed.iter().map(|c| c.id).collect::<Vec<_>>(), vec![a]);
}

#[test]
fn proofs_are_serialized_tag_by_tag() {
    let mut out = Vec::new();
    serialize_evalcheck_proof::<BinaryField2b>(&mut out, &EvalcheckProof::Transparent);
    serialize_evalcheck_proof::<BinaryField2b>(&mut out, &EvalcheckProof::Committed);
    serialize_evalcheck_proof::<BinaryField2b>(&mut out, &EvalcheckProof::Shifted);
    serialize_evalcheck_proof::<BinaryField2b>(&mut out, &EvalcheckProof::Packed);
    assert_eq!(out, vec![1, 2, 3, 4]);
    let nested = EvalcheckProof::LinearCombination {
        subproofs: vec![
            (f(3), EvalcheckProof::Repeating(Box::new(EvalcheckProof::Committed))),
            (f(2), EvalcheckProof::ZeroPadded(f(1), Box::new(EvalcheckProof::Packed))),
        ],
    };
    let mut out = vec![0xaa];
    serialize_evalcheck_proof(&mut out, &nested);
    assert_eq!(out, vec![0xaa, 6, 2, 0, 0, 0, 0, 0, 0, 0, 3, 5, 2, 2, 7, 1, 4]);
    let mut both = Vec::new();
    serialize_evalcheck_proofs(&mut both, &vec![EvalcheckProof::<BinaryField2b>::Shifted, nested]);
    assert_eq!(both, vec![3, 6, 2, 0, 0, 0, 0, 0, 0, 0, 3, 5, 2, 2, 7, 1, 4]);
    let mut number = vec![7];
    write_u64(&mut number, 0x0102_0304_0506_0708);
    assert_eq!(number, vec![7, 8, 7, 6, 5, 4, 3, 2, 1]);
}

/// `C` of three variables, shifted twice.
fn twice_shifted() -> (MultilinearOracleSet<BinaryField2b>, MultilinearExtensionIndex<BinaryField2b>, usize) {
    let mut oracles = MultilinearOracleSet::new();
    let c = oracles.add_committed(3).unwrap();
    let once = oracles.add_shifted(c, 1, 2, ShiftVariant::LogicalLeft).unwrap();
    let twice = oracles.add_shifted(once, 1, 1, ShiftVariant::LogicalLeft).unwrap();
    let mut witness = MultilinearExtensionIndex::new();
    witness.update_multilin_poly(c, col(&[1, 2, 3, 0, 2, 2, 1, 3]));
    witness.update_multilin_poly(once, col(&[0, 1, 2, 3, 0, 2, 2, 1]));
    (oracles, witness, twice)
}

#[test]
fn greedy_evalcheck_takes_one_round_for_each_level_of_shifting() {
    let (oracles, witness, twice) = twice_shifted();
    let (mut machine, first) =
        GreedyEvalcheckProver::start(oracles, witness, vec![claim(twice, &[1, 2, 3], 2)]).unwrap();
    // one proof, a shifted leaf
    assert_eq!(first.transcript, vec![3]);
    assert_eq!(first.advice, vec![1, 0, 0, 0, 0, 0, 0, 0]);
    let constraints = match first.action {
        GreedyAction::ProveSumchecks { constraints } => constraints,
        GreedyAction::Finish { .. } => panic!("a shifted claim leaves a sumcheck instance"),
    };
    assert_eq!(constraints.len(), 1);
    assert_eq!(constraints[0].n_vars, 1);
    let instance = &constraints[0].constraints[0];
    // the projection of the once shifted oracle onto the block, and the shift indicator
    assert_eq!((instance.projected_id, instance.multiplier_id, instance.sum.val()), (3, 4, 2));

    // the sumcheck protocol hands back claims on the two oracles of the instance
    let answer = vec![claim(3, &[3], 1), claim(4, &[3], 2)];
    assert!(machine.accepts(&answer));
    let second = machine.resume(answer).unwrap();
    // the projection leads to the once shifted oracle: a shifted leaf again
    assert_eq!(second.transcript, vec![3, 1]);
    assert_eq!(second.advice, Vec::<u8>::new());
    assert_eq!(machine.rounds(), 1);
    let constraints = match second.action {
        GreedyAction::ProveSumchecks { constraints } => constraints,
        GreedyAction::Finish { .. } => panic!("the once shifted claim leaves a sumcheck instance"),
    };
    assert_eq!(constraints.len(), 1);
    assert_eq!(constraints[0].n_vars, 2);
    let instance = &constraints[0].constraints[0];
    assert_eq!((instance.projected_id, instance.multiplier_id, instance.sum.val()), (5, 6, 1));

    let answer = vec![claim(5, &[1, 1], 3), claim(6, &[1, 1], 0)];
    let third = machine.resume(answer).unwrap();
    assert_eq!(third.transcript, vec![2, 1]);
    assert_eq!(machine.rounds(), 2);
    // the number of rounds closes the advice
    assert_eq!(third.advice, vec![2, 0, 0, 0, 0, 0, 0, 0]);
    match third.action {
        GreedyAction::Finish { committed_claims } => {
            assert_eq!(committed_claims.len(), 1);
            assert_eq!(committed_claims[0].id, 0);
            // the point of the sumcheck, then the high coordinate of the claim before
            assert_eq!(vals(&committed_claims[0].eval_point), vec![1, 1, 3]);
            assert_eq!(committed_claims[0].eval.val(), 3);
        }
        GreedyAction::ProveSumchecks { .. } => panic!("a committed claim leaves no sumcheck instance"),
    }
    let (oracles, witness) = machine.into_parts();
    assert_eq!(oracles.size(), 7);
    assert!(oracles.is_wf());
    assert!(witness.fits(&oracles));
}

#[test]
fn greedy_evalcheck_without_shifts_finishes_at_once() {
    let (oracles, witness, top) = sample();
    let p = [2u8, 3];
    let (machine, step) =
        GreedyEvalcheckProver::start(oracles, witness, vec![claim(top, &p, top_value(&p).val())]).unwrap();
    assert_eq!(machine.rounds(), 0);
    assert_eq!(&step.advice[..8], &[1, 0, 0, 0, 0, 0, 0, 0]);
    assert_eq!(&step.advice[8..], &[0, 0, 0, 0, 0, 0, 0, 0]);
    assert_eq!(step.transcript[0], 6);
    match step.action {
        GreedyAction::Finish { committed_claims } => assert_eq!(committed_claims.len(), 3),
        GreedyAction::ProveSumchecks { .. } => panic!("no shifted or packed oracle is reached"),
    }
}

#[test]
fn greedy_evalcheck_reports_a_missing_witness() {
    let mut oracles = MultilinearOracleSet::new();
    let a = oracles.add_committed(1).unwrap();
    let b = oracles.add_committed(1).unwrap();
    let sum = oracles.add_linear_combination(1, vec![(a, f(1)), (b, f(1))]).unwrap();
    let r = GreedyEvalcheckProver::start(oracles, MultilinearExtensionIndex::new(), vec![claim(sum, &[2], 1)]);
    assert_eq!(r.err(), Some(Error::Witness(WitnessError::MissingWitness { id: a })));
}

#[test]
fn sumcheck_rounds_are_counted() {
    let claim = SumcheckClaim { poly: 5, n_vars: 2, sum: f(3) };
    let proof = SumcheckProof { rounds: vec![SumcheckRound { coeffs: vec![f(1)] }] };
    assert_eq!(verify(&claim, proof, &col(&[2])).err(), Some(VerificationError::NumberOfRounds));
    let empty = SumcheckProof { rounds: vec![] };
    assert_eq!(verify(&claim, empty, &vec![]).err(), Some(VerificationError::NumberOfRounds));
}

#[test]
fn sumcheck_reduces_the_sum_round_by_round() {
    let claim = SumcheckClaim { poly: 5, n_vars: 2, sum: f(3) };
    let proof = SumcheckProof {
        rounds: vec![SumcheckRound { coeffs: vec![f(1)] }, SumcheckRound { coeffs: vec![f(2)] }],
    };
    // round one: 1 + 3 x at 2 is 0; round two: 2 + 0 x at 3 is 2
    let reduced = verify(&claim, proof, &col(&[2, 3])).unwrap();
    assert_eq!(reduced.id, 5);
    assert_eq!(vals(&reduced.eval_point), vec![2, 3]);
    assert_eq!(reduced.eval.val(), 2);
    assert_eq!(reduce_round_claim(f(3), &SumcheckRound { coeffs: vec![f(1)] }, f(2)).val(), 0);
    // without coefficients the round polynomial is the constant that the sum asks for
    assert_eq!(reduce_round_claim(f(3), &SumcheckRound { coeffs: vec![] }, f(2)).val(), 3);
    // a quadratic: 1 + 2 x + c x^2 with 1 + (1 + 2 + c) = 3, so c = 1
    let quadratic = SumcheckRound { coeffs: vec![f(1), f(2)] };
    let expected = f(1).add(f(2).mul(f(3))).add(f(3).mul(f(3)));
    assert_eq!(reduce_round_claim(f(3), &quadratic, f(3)).val(), expected.val());
    assert_eq!(evaluate_univariate(&col(&[1, 2, 1]), f(3)).val(), expected.val());
    assert_eq!(evaluate_univariate::<BinaryField2b>(&vec![], f(3)).val(), 0);
}

/// `C` of three variables, shifted once and twice, and the sum of the twice
/// shifted and twice the once shifted.
fn shifted_sum() -> (MultilinearOracleSet<BinaryField2b>, usize, usize, usize) {
    let mut oracles = MultilinearOracleSet::new();
    let c = oracles.add_committed(3).unwrap();
    let once = oracles.add_shifted(c, 1, 2, ShiftVariant::LogicalLeft).unwrap();
    let twice = oracles.add_shifted(once, 1, 1, ShiftVariant::LogicalLeft).unwrap();
    let top = oracles.add_linear_combination(3, vec![(twice, f(1)), (once, f(2))]).unwrap();
    (oracles, once, twice, top)
}

#[test]
fn verifier_comes_to_the_sumcheck_instances_of_the_prover() {
    let (mut verifier_oracles, once, twice, top) = shifted_sum();
    let (prover_oracles, _, _, _) = shifted_sum();
    let once_col = [0u8, 1, 2, 3, 0, 2, 2, 1];
    let twice_col = [3u8, 0, 1, 2, 3, 0, 2, 2];
    let p = [1u8, 2, 3];
    let value = true_eval(&twice_col, &p).add(f(2).mul(true_eval(&once_col, &p)));
    let mut witness = MultilinearExtensionIndex::new();
    witness.update_multilin_poly(0, col(&[1, 2, 3, 0, 2, 2, 1, 3]));
    witness.update_multilin_poly(once, col(&once_col));
    witness.update_multilin_poly(twice, col(&twice_col));
    let mut prover = EvalcheckProver::new(prover_oracles, witness);
    let claims = vec![claim(top, &p, value.val())];
    let proofs = prover.prove(vec![claim(top, &p, value.val())]).unwrap();
    let leaves = evalcheck::verify::verify(&verifier_oracles, &claims, &proofs).unwrap();
    assert_eq!(leaves.bivariate.iter().map(|c| c.id).collect::<Vec<_>>(), vec![twice, once]);
    assert_eq!(leaves.committed.len(), 0);

    let mut builders: Vec<ConstraintSetBuilder<BinaryField2b>> = Vec::new();
    assert_eq!(add_sumcheck_constraints(&mut verifier_oracles, &leaves.bivariate, &mut builders), Ok(()));
    // the same oracles at the same places
    assert_eq!(verifier_oracles.size(), prover.oracles().size());
    assert_eq!(verifier_oracles.size(), 8);
    for id in 4..8 {
        let mine = verifier_oracles.oracle(id);
        let theirs = prover.oracles().oracle(id);
        assert_eq!(mine.n_vars, theirs.n_vars);
        match (&mine.variant, &theirs.variant) {
            (
                OracleVariant::Projected { inner: a, values: va, variant: ka },
                OracleVariant::Projected { inner: b, values: vb, variant: kb },
            ) => {
                assert_eq!((a, vals(va), ka), (b, vals(vb), kb));
            }
            (OracleVariant::Transparent { .. }, OracleVariant::Transparent { .. }) => {}
            _ => panic!("prover and verifier added different oracles"),
        }
    }
    // and the same instances, the highest arity first
    let theirs = prover.take_new_sumchecks_constraints().unwrap();
    assert_eq!(theirs.len(), 2);
    assert_eq!((theirs[0].n_vars, theirs[1].n_vars), (2, 1));
    assert_eq!(builders.len(), 3);
    for set in theirs.iter() {
        let mine = &builders[set.n_vars].constraints;
        assert_eq!(mine.len(), set.constraints.len());
        for (a, b) in mine.iter().zip(set.constraints.iter()) {
            assert_eq!((a.projected_id, a.multiplier_id, a.sum.val()), (b.projected_id, b.multiplier_id, b.sum.val()));
        }
    }
    // a batch with a proof too few is refused
    assert_eq!(
        evalcheck::verify::verify(&verifier_oracles, &claims, &vec![]).err(),
        Some(VerificationError::SubproofMismatch)
    );
}
