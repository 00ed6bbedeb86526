use vstd::prelude::*;
use crate::completion::{complete_all, completed};
use crate::evalcheck::{ClaimKey, ClaimSpec};
use crate::field::Field;
use crate::oracle::{oracle_fits, oracles_wf, MultilinearPolyOracle, ProjectionVariant};
use crate::prove::{proofs_of, reached};
use crate::reduction::{
    child_keys, key_ok, projected_point, reduce, reduce_prefix, single_term_eval, ProverState,
};
use crate::rounds::{quiescent, run, seed, step};

verus! {

/// The point of the inner claim of a projection holds the fixed values
/// and the parent's point side by side: where the first variables are
/// fixed, coordinate `i` is the `i`-th fixed value up to their number and
/// the parent's coordinate after that; where the last variables are
/// fixed, it is the parent's coordinate up to the parent's arity and the
/// fixed value after that.
pub proof fn lemma_projected_point_algebra<F>(point: Seq<F>, values: Seq<F>)
    ensures
        projected_point(point, values, ProjectionVariant::FirstVars) == values + point,
        projected_point(point, values, ProjectionVariant::LastVars) == point + values,
        projected_point(point, values, ProjectionVariant::FirstVars).len() == point.len()
            + values.len(),
        projected_point(point, values, ProjectionVariant::LastVars).len() == point.len()
            + values.len(),
        forall|i: int|
            0 <= i < point.len() + values.len() ==> #[trigger] projected_point(
                point,
                values,
                ProjectionVariant::FirstVars,
            )[i] == (if i < values.len() {
                values[i]
            } else {
                point[i - values.len()]
            }),
        forall|i: int|
            0 <= i < point.len() + values.len() ==> #[trigger] projected_point(
                point,
                values,
                ProjectionVariant::LastVars,
            )[i] == (if i < point.len() {
                point[i]
            } else {
                values[i - point.len()]
            }),
{
}

/// A claim at a point `x` on a projection is reduced to one claim on the
/// inner oracle, at the point that holds the fixed values and `x` side by
/// side; that point has as many coordinates as the inner oracle has
/// variables.
pub proof fn lemma_projected_claim_point<F>(
    oracles: Seq<MultilinearPolyOracle<F>>,
    key: ClaimKey<F>,
)
    requires
        oracles_wf(oracles),
        key_ok(oracles, key),
        oracles[key.0 as int].variant is Projected,
    ensures
        child_keys(oracles, key).len() == 1,
        child_keys(oracles, key)[0].0 == oracles[key.0 as int].variant->Projected_inner,
        child_keys(oracles, key)[0].1 == projected_point(
            key.1,
            oracles[key.0 as int].variant->Projected_values@,
            oracles[key.0 as int].variant->Projected_variant,
        ),
        child_keys(oracles, key)[0].1.len()
            == oracles[child_keys(oracles, key)[0].0 as int].n_vars,
{
    assert(oracle_fits(oracles, key.0 as int));
}

/// The value claimed of the only polynomial of a linear combination with
/// a nonzero coefficient gives the parent's value back: the coefficient
/// times the child's value plus the offset is the value claimed of the
/// combination.
pub proof fn lemma_single_term_reconstructs<F: Field>(eval: F, offset: F, coeff: F)
    requires
        coeff != F::zero(),
    ensures
        coeff.mul_spec(single_term_eval(eval, offset, coeff)).add_spec(offset) == eval,
{
    let diff = eval.sub_spec(offset);
    let inverse = coeff.invert_or_zero_spec();
    F::lemma_inverse(coeff);
    F::lemma_mul_laws(coeff, diff.mul_spec(inverse), coeff);
    F::lemma_mul_laws(diff, inverse, coeff);
    F::lemma_mul_laws(inverse, coeff, coeff);
    F::lemma_mul_laws(diff, coeff, coeff);
    F::lemma_add_laws(eval, offset, offset);
    assert(coeff.mul_spec(diff.mul_spec(inverse)) == diff.mul_spec(inverse).mul_spec(coeff));
    assert(diff.mul_spec(inverse).mul_spec(coeff) == diff.mul_spec(inverse.mul_spec(coeff)));
    assert(inverse.mul_spec(coeff) == coeff.mul_spec(inverse));
    assert(diff.mul_spec(F::one()) == diff);
}

/// A claim whose key was reduced before changes nothing, whatever value
/// it claims: the entry of a key in the finalized table is written once.
pub proof fn lemma_reduce_idempotent<F: Field>(
    oracles: Seq<MultilinearPolyOracle<F>>,
    st: ProverState<F>,
    first: ClaimSpec<F>,
    second: ClaimSpec<F>,
)
    requires
        first.key() == second.key(),
    ensures
        reduce(oracles, reduce(oracles, st, first), second) == reduce(oracles, st, first),
{
}

/// Claims whose keys are all finalized are reduced without any change to
/// the state.
pub proof fn lemma_finalized_claims_reduce_to_nothing<F: Field>(
    oracles: Seq<MultilinearPolyOracle<F>>,
    st: ProverState<F>,
    claims: Seq<ClaimSpec<F>>,
    n: nat,
)
    requires
        n <= claims.len(),
        forall|i: int| 0 <= i < claims.len() ==> st.finalized.contains_key(
            (#[trigger] claims[i]).key(),
        ),
    ensures
        reduce_prefix(oracles, st, claims, n) == st,
    decreases n,
{
    if n > 0 {
        lemma_finalized_claims_reduce_to_nothing(oracles, st, claims, (n - 1) as nat);
        assert(st.finalized.contains_key(claims[n - 1].key()));
    }
}

/// An engine at rest stays where it is.
pub proof fn lemma_rest_is_fixed<F: Field>(
    oracles: Seq<MultilinearPolyOracle<F>>,
    columns: Seq<Option<Vec<F>>>,
    st: ProverState<F>,
    n: nat,
)
    requires
        quiescent(st),
    ensures
        run(oracles, columns, st, n) == Some(st),
    decreases n,
{
    if n > 0 {
        lemma_rest_is_fixed(oracles, columns, st, (n - 1) as nat);
    }
}

/// Once the engine has come to rest, further steps change nothing: the
/// state in which it rests is the same however many steps are counted.
pub proof fn lemma_run_stays_at_rest<F: Field>(
    oracles: Seq<MultilinearPolyOracle<F>>,
    columns: Seq<Option<Vec<F>>>,
    st: ProverState<F>,
    n: nat,
    m: nat,
)
    requires
        n <= m,
        run(oracles, columns, st, n) is Some,
        quiescent(run(oracles, columns, st, n)->0),
    ensures
        run(oracles, columns, st, m) == run(oracles, columns, st, n),
    decreases m,
{
    if m > n {
        lemma_run_stays_at_rest(oracles, columns, st, n, (m - 1) as nat);
    }
}

/// The state in which the engine comes to rest on given claims is unique.
pub proof fn lemma_rest_is_unique<F: Field>(
    oracles: Seq<MultilinearPolyOracle<F>>,
    columns: Seq<Option<Vec<F>>>,
    st: ProverState<F>,
    claims: Seq<ClaimSpec<F>>,
    rest: ProverState<F>,
    other: ProverState<F>,
)
    requires
        reached(oracles, columns, st, claims, rest),
        reached(oracles, columns, st, claims, other),
    ensures
        rest == other,
{
    let seeded = seed(st, claims);
    let n = choose|n: nat| #[trigger] run(oracles, columns, seeded, n) == Some(rest);
    let m = choose|m: nat| #[trigger] run(oracles, columns, seeded, m) == Some(other);
    if n <= m {
        lemma_run_stays_at_rest(oracles, columns, seeded, n, m);
    } else {
        lemma_run_stays_at_rest(oracles, columns, seeded, m, n);
    }
}

/// Submitting claims whose keys are all finalized changes nothing in the
/// finalized table, which keeps its size, and yields the proofs that the
/// table holds for them: a claim submitted a second time gets the proof it
/// got the first time.
pub proof fn lemma_resubmission_changes_nothing<F: Field>(
    oracles: Seq<MultilinearPolyOracle<F>>,
    columns: Seq<Option<Vec<F>>>,
    st: ProverState<F>,
    claims: Seq<ClaimSpec<F>>,
    rest: ProverState<F>,
)
    requires
        quiescent(st),
        st.pending == Map::<ClaimKey<F>, ClaimSpec<F>>::empty(),
        forall|i: int| 0 <= i < claims.len() ==> st.finalized.contains_key(
            (#[trigger] claims[i]).key(),
        ),
        reached(oracles, columns, st, claims, rest),
    ensures
        rest.finalized == st.finalized,
        complete_all(oracles, rest).finalized == st.finalized,
        proofs_of(complete_all(oracles, rest).finalized, claims) == proofs_of(st.finalized, claims),
{
    let seeded = seed(st, claims);
    let emptied = ProverState { queue: Seq::empty(), ..seeded };
    assert(seeded.queue =~= claims);
    lemma_finalized_claims_reduce_to_nothing(oracles, emptied, claims, claims.len());
    let n = choose|n: nat| #[trigger] run(oracles, columns, seeded, n) == Some(rest);
    if claims.len() == 0 {
        assert(seeded.queue =~= emptied.queue);
        lemma_rest_is_fixed(oracles, columns, seeded, n);
    } else {
        assert(step(oracles, columns, seeded) == Some(emptied));
        assert(run(oracles, columns, seeded, 0) == Some(seeded));
        assert(run(oracles, columns, seeded, 1) == Some(emptied));
        if n >= 1 {
            lemma_run_stays_at_rest(oracles, columns, seeded, 1, n);
        }
    }
    assert(rest.finalized == st.finalized);
    assert(completed(oracles, rest) =~= st.finalized);
}

} // verus!
