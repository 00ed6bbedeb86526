use evalcheck::binary_field::BinaryField2b;
use evalcheck::eval_point_map::EvalPointOracleIdMap;
use evalcheck::evalcheck::{clone_point, points_equal, EvalcheckMultilinearClaim, EvalcheckProof};
use evalcheck::field::Field;
use evalcheck::multilinear::{evaluate, evaluate_partial_high, tensor_expand};
use evalcheck::oracle::{
    MultilinearOracleSet, MultilinearPolyOracle, OracleError, OracleVariant, ProjectionVariant,
    ShiftVariant, TransparentPoly, MAX_N_VARS,
};
use evalcheck::prove::{prefix_point, projected_eval_point};
use evalcheck::subclaims::{low_coordinates, suffix_point};
use evalcheck::witness::{power_of_two, MemoizedQueries, MultilinearExtensionIndex};
use evalcheck::error::WitnessError;

fn f(v: u8) -> BinaryField2b {
    BinaryField2b::new(v)
}

fn col(values: &[u8]) -> Vec<BinaryField2b> {
    values.iter().map(|v| f(*v)).collect()
}

fn vals(values: &[BinaryField2b]) -> Vec<u8> {
    values.iter().map(|v| v.val()).collect()
}

/// The value of the equality indicator of `point` at vertex `i`, computed
/// factor by factor.
fn eq_ind(point: &[u8], i: usize) -> BinaryField2b {
    let mut acc = f(1);
    for (j, r) in point.iter().enumerate() {
        let factor = if (i >> j) & 1 == 1 { f(*r) } else { f(1).sub(f(*r)) };
        acc = acc.mul(factor);
    }
    acc
}

#[test]
fn tensor_expansion_of_the_empty_point_is_one() {
    assert_eq!(vals(&tensor_expand::<BinaryField2b>(&vec![])), vec![1]);
}

#[test]
fn tensor_expansion_holds_the_equality_indicator() {
    assert_eq!(vals(&tensor_expand(&col(&[2]))), vec![3, 2]);
    assert_eq!(vals(&tensor_expand(&col(&[2, 3]))), vec![1, 3, 2, 1]);
    let point = [2u8, 3, 1];
    let expansion = tensor_expand(&col(&point));
    assert_eq!(expansion.len(), 8);
    for i in 0..8 {
        assert_eq!(expansion[i].val(), eq_ind(&point, i).val());
    }
}

#[test]
fn evaluation_is_the_inner_product_with_the_expansion() {
    let value = evaluate(&col(&[1, 2, 3, 0]), &tensor_expand(&col(&[2, 3])));
    assert_eq!(value.val(), 1);
    // on a vertex of the hypercube the polynomial takes the value of the column
    for i in 0..4usize {
        let vertex = [(i & 1) as u8, ((i >> 1) & 1) as u8];
        let value = evaluate(&col(&[1, 2, 3, 0]), &tensor_expand(&col(&vertex)));
        assert_eq!(value.val(), [1u8, 2, 3, 0][i]);
    }
}

#[test]
fn partial_evaluation_fixes_the_high_variables() {
    let column = col(&[1, 2, 3, 0, 2, 2, 1, 3]);
    // fix the highest variable to 0 and to 1
    let low = evaluate_partial_high(&column, &tensor_expand(&col(&[0])), 4);
    assert_eq!(vals(&low), vec![1, 2, 3, 0]);
    let high = evaluate_partial_high(&column, &tensor_expand(&col(&[1])), 4);
    assert_eq!(vals(&high), vec![2, 2, 1, 3]);
    // fixing the high variables and evaluating the rest gives the full evaluation
    let partial = evaluate_partial_high(&column, &tensor_expand(&col(&[3])), 4);
    let through = evaluate(&partial, &tensor_expand(&col(&[2, 1])));
    let direct = evaluate(&column, &tensor_expand(&col(&[2, 1, 3])));
    assert_eq!(through.val(), direct.val());
    // fixing all variables leaves the one value
    let all = evaluate_partial_high(&column, &tensor_expand(&col(&[2, 1, 3])), 1);
    assert_eq!(vals(&all), vec![direct.val()]);
}

#[test]
fn points_are_cut_and_joined() {
    let p = col(&[1, 2, 3]);
    assert_eq!(vals(&prefix_point(&p, 2)), vec![1, 2]);
    assert_eq!(vals(&prefix_point(&p, 0)), Vec::<u8>::new());
    assert_eq!(vals(&low_coordinates(&p, 1)), vec![1]);
    assert_eq!(vals(&suffix_point(&p, 1)), vec![2, 3]);
    assert_eq!(vals(&suffix_point(&p, 3)), Vec::<u8>::new());
    let fixed = col(&[0, 3]);
    assert_eq!(vals(&projected_eval_point(&p, &fixed, ProjectionVariant::FirstVars)), vec![0, 3, 1, 2, 3]);
    assert_eq!(vals(&projected_eval_point(&p, &fixed, ProjectionVariant::LastVars)), vec![1, 2, 3, 0, 3]);
    assert_eq!(vals(&clone_point(&p)), vec![1, 2, 3]);
    assert!(points_equal(&p, &col(&[1, 2, 3])));
    assert!(!points_equal(&p, &col(&[1, 2])));
    assert!(!points_equal(&p, &col(&[1, 2, 2])));
}

#[test]
fn table_entries_are_written_once() {
    let mut table: EvalPointOracleIdMap<u32, BinaryField2b> = EvalPointOracleIdMap::new();
    assert!(table.get(3, &col(&[1])).is_none());
    table.insert(3, col(&[1]), 10);
    table.insert(3, col(&[2]), 20);
    table.insert(0, col(&[1]), 30);
    table.insert(3, col(&[1]), 99);
    assert_eq!(table.get(3, &col(&[1])), Some(&10));
    assert_eq!(table.get(3, &col(&[2])), Some(&20));
    assert_eq!(table.get(0, &col(&[1])), Some(&30));
    assert!(table.get(1, &col(&[1])).is_none());
    assert!(table.get(7, &col(&[1])).is_none());
    assert!(table.contains(3, &col(&[2])));
    assert!(!table.contains(3, &col(&[3])));
}

#[test]
fn memoizer_holds_expansions_of_memoized_points_only() {
    let mut memo: MemoizedQueries<BinaryField2b> = MemoizedQueries::new();
    assert!(memo.full_query_readonly(&col(&[2, 3])).is_none());
    memo.memoize_query_par(&vec![col(&[2, 3]), col(&[2]), col(&[2, 3])]);
    assert_eq!(vals(memo.full_query_readonly(&col(&[2, 3])).unwrap()), vec![1, 3, 2, 1]);
    assert_eq!(vals(memo.full_query_readonly(&col(&[2])).unwrap()), vec![3, 2]);
    assert!(memo.full_query_readonly(&col(&[3])).is_none());
    memo.memoize_query(&col(&[3]));
    assert_eq!(vals(memo.full_query_readonly(&col(&[3])).unwrap()), vec![2, 3]);
}

#[test]
fn witness_store_reports_missing_columns() {
    let mut witness: MultilinearExtensionIndex<BinaryField2b> = MultilinearExtensionIndex::new();
    assert!(!witness.has(2));
    assert_eq!(witness.get_multilin_poly(2).err(), Some(WitnessError::MissingWitness { id: 2 }));
    witness.update_multilin_poly(2, col(&[1, 2]));
    assert!(witness.has(2));
    assert!(!witness.has(1));
    assert_eq!(vals(witness.get_multilin_poly(2).unwrap()), vec![1, 2]);
    assert_eq!(witness.get_multilin_poly(1).err(), Some(WitnessError::MissingWitness { id: 1 }));
    witness.update_multilin_poly(2, col(&[3, 3]));
    assert_eq!(vals(witness.get_multilin_poly(2).unwrap()), vec![3, 3]);
}

#[test]
fn witness_fits_where_columns_match_the_hypercubes() {
    let mut oracles: MultilinearOracleSet<BinaryField2b> = MultilinearOracleSet::new();
    let a = oracles.add_committed(2).unwrap();
    let mut witness = MultilinearExtensionIndex::new();
    assert!(witness.fits(&oracles));
    witness.update_multilin_poly(a, col(&[1, 2, 3, 0]));
    assert!(witness.fits(&oracles));
    witness.update_multilin_poly(a, col(&[1, 2, 3]));
    assert!(!witness.fits(&oracles));
    witness.update_multilin_poly(a, col(&[1, 2, 3, 0]));
    witness.update_multilin_poly(a + 1, col(&[1]));
    assert!(!witness.fits(&oracles));
    assert_eq!(power_of_two(0), 1);
    assert_eq!(power_of_two(5), 32);
    assert_eq!(power_of_two(MAX_N_VARS), 1 << 30);
}

#[test]
fn oracles_are_added_where_they_fit() {
    let mut oracles: MultilinearOracleSet<BinaryField2b> = MultilinearOracleSet::new();
    assert_eq!(oracles.size(), 0);
    let a = oracles.add_committed(3).unwrap();
    let b = oracles.add_committed(3).unwrap();
    let c = oracles.add_committed(1).unwrap();
    assert_eq!((a, b, c), (0, 1, 2));
    assert_eq!(oracles.add_repeating(a, 2), Ok(3));
    assert_eq!(oracles.n_vars(3), 5);
    assert_eq!(oracles.add_shifted(a, 1, 2, ShiftVariant::CircularLeft), Ok(4));
    assert_eq!(oracles.n_vars(4), 3);
    assert_eq!(oracles.add_packed(a, 2), Ok(5));
    assert_eq!(oracles.n_vars(5), 1);
    assert_eq!(oracles.add_projected(a, col(&[1]), ProjectionVariant::LastVars), Ok(6));
    assert_eq!(oracles.n_vars(6), 2);
    assert_eq!(oracles.add_linear_combination(3, vec![(a, f(1)), (b, f(2))]), Ok(7));
    assert_eq!(oracles.add_zero_padded(c, 4), Ok(8));
    assert_eq!(oracles.add_transparent(2, TransparentPoly::Public), Ok(9));
    assert_eq!(oracles.size(), 10);
    assert!(oracles.is_valid_oracle_id(9));
    assert!(!oracles.is_valid_oracle_id(10));
    assert!(oracles.is_wf());
    assert!(matches!(oracles.oracle(7).variant, OracleVariant::LinearCombination { .. }));
}

#[test]
fn oracles_that_do_not_fit_are_refused_with_the_reason() {
    let mut oracles: MultilinearOracleSet<BinaryField2b> = MultilinearOracleSet::new();
    let a = oracles.add_committed(3).unwrap();
    let c = oracles.add_committed(1).unwrap();
    assert_eq!(oracles.add_committed(MAX_N_VARS + 1), Err(OracleError::TooManyVariables));
    assert_eq!(oracles.add_committed(MAX_N_VARS), Ok(2));
    assert_eq!(oracles.add_repeating(a, MAX_N_VARS), Err(OracleError::TooManyVariables));
    assert_eq!(oracles.add_repeating(9, 1), Err(OracleError::TooManyVariables));
    assert_eq!(oracles.add_shifted(9, 1, 1, ShiftVariant::LogicalLeft), Err(OracleError::TooManyVariables));
    assert_eq!(oracles.add_shifted(a, 1, 4, ShiftVariant::LogicalLeft), Err(OracleError::NotEnoughVariables));
    assert_eq!(oracles.add_packed(c, 2), Err(OracleError::NotEnoughVariables));
    assert_eq!(oracles.add_packed(9, 2), Err(OracleError::InvalidOracleId));
    assert_eq!(oracles.add_projected(c, col(&[1, 2]), ProjectionVariant::FirstVars), Err(OracleError::NotEnoughVariables));
    assert_eq!(oracles.add_zero_padded(a, 2), Err(OracleError::NotEnoughVariables));
    assert_eq!(oracles.add_zero_padded(9, 2), Err(OracleError::InvalidOracleId));
    assert_eq!(oracles.add_linear_combination(3, vec![(a, f(1)), (c, f(1))]), Err(OracleError::IncorrectNumberOfVariables));
    assert_eq!(oracles.add_linear_combination(3, vec![(a, f(1)), (9, f(1))]), Err(OracleError::InvalidOracleId));
    // nothing was added by the refused calls
    assert_eq!(oracles.size(), 3);
    // an oracle may not name itself or a later one
    let own = oracles.add(MultilinearPolyOracle { n_vars: 3, variant: OracleVariant::ZeroPadded { inner: 3 } });
    assert_eq!(own, Err(OracleError::InvalidOracleId));
}

#[test]
fn sets_built_by_hand_are_checked() {
    let mut oracles: MultilinearOracleSet<BinaryField2b> = MultilinearOracleSet::new();
    oracles.oracles.push(MultilinearPolyOracle { n_vars: 2, variant: OracleVariant::Repeating { inner: 0, log_count: 1 } });
    assert!(!oracles.is_wf());
    let mut cyclic: MultilinearOracleSet<BinaryField2b> = MultilinearOracleSet::new();
    cyclic.oracles.push(MultilinearPolyOracle { n_vars: 2, variant: OracleVariant::ZeroPadded { inner: 1 } });
    cyclic.oracles.push(MultilinearPolyOracle { n_vars: 2, variant: OracleVariant::ZeroPadded { inner: 0 } });
    assert!(!cyclic.is_wf());
}

#[test]
fn claims_and_proofs_are_copied() {
    let claim = EvalcheckMultilinearClaim { id: 4, eval_point: col(&[1, 2]), eval: f(3) };
    let copy = claim.duplicate();
    assert_eq!((copy.id, vals(&copy.eval_point), copy.eval.val()), (4, vec![1, 2], 3));
    let proof = EvalcheckProof::LinearCombination {
        subproofs: vec![
            (f(1), EvalcheckProof::Repeating(Box::new(EvalcheckProof::Committed))),
            (f(2), EvalcheckProof::ZeroPadded(f(3), Box::new(EvalcheckProof::Packed))),
        ],
    };
    match proof.duplicate() {
        EvalcheckProof::LinearCombination { subproofs } => {
            assert_eq!(subproofs.len(), 2);
            assert_eq!(subproofs[0].0.val(), 1);
            assert!(matches!(&subproofs[0].1, EvalcheckProof::Repeating(sub) if matches!(**sub, EvalcheckProof::Committed)));
            assert!(matches!(&subproofs[1].1, EvalcheckProof::ZeroPadded(e, sub) if e.val() == 3 && matches!(**sub, EvalcheckProof::Packed)));
        }
        _ => panic!("the copy of a linear combination is a linear combination"),
    }
}
