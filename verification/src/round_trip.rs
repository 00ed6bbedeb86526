use vstd::prelude::*;
use crate::collection::{child_claims, collect, collect_children, Collected};
use crate::completion::{
    assembled, assembled_from, built_children, complete_all, completed, lemma_complete_all_inv,
};
use crate::depth::{depth, lemma_collect_all_depth, lemma_max_depth_bounds, max_depth};
use crate::error::{Error, WitnessError};
use crate::evalcheck::{ClaimKey, ClaimSpec, EvalcheckProof, ProofSpec};
use crate::field::Field;
use crate::measure::claim_keys;
use crate::multilinear::evaluate_spec;
use crate::multilinear_laws::lemma_partial_evaluation;
use crate::oracle::{oracle_fits, oracles_wf, MultilinearPolyOracle, OracleId, OracleVariant};
use crate::prove::{claims_ok, leaf_claims, proofs_of, proofs_view, reached, EvalcheckProver};
use crate::reduction::{
    accounted, child_keys, children_finalized, claim_ok, empty_state, extends, finalized_inv,
    is_leaf, key_ok, leaf_proof, lemma_child_keys_ok, lemma_extension_keeps_children,
    lemma_reduce_keeps_inv, pending_ok, reduce, reduce_prefix, single_term_eval, state_inv,
    ProverState,
};
use crate::rounds::{
    evaluation_base, fails_after, first_unvalued, fresh_keys, lemma_fresh_keys,
    lemma_run_keeps_dedup, lemma_run_keeps_inv, lemma_seed_inv, lemma_start_drain,
    lemma_start_evaluation, quiescent, run, seed, step, valued_claims,
};
use crate::semantics::{all_true, combination_of, value_of};
use crate::subclaims::{
    added_ok, bivariate_inner, columns_extended, first_unprojectable, high_point,
    lemma_base_of_grows, meta_of, oracles_extended, projectable, projectable_one, projected_column,
    reports_first_unprojectable,
};
use crate::verify::{
    bivariate_ok, child_claim, child_entries, combination_value, entry_evals, leaf_of,
    shape_matches, value_checks, verified, verified_children, Leaves,
};
use crate::witness::{column_of, witness_fits};

verus! {

/// Whether every entry of the table holds the true value of its key.
pub open spec fn table_true<F: Field>(
    oracles: Seq<MultilinearPolyOracle<F>>,
    leaf: spec_fn(ClaimKey<F>) -> F,
    table: Map<ClaimKey<F>, (F, ProofSpec<F>)>,
) -> bool {
    forall|k: ClaimKey<F>| #[trigger] table.contains_key(k) ==> table[k].0 == value_of(oracles, leaf, k)
}

/// Whether every entry of the table holds the proof that belongs to its
/// key: the marker of a leaf, and else the proof put together from the
/// entries of the children.
pub open spec fn table_shaped<F>(
    oracles: Seq<MultilinearPolyOracle<F>>,
    table: Map<ClaimKey<F>, (F, ProofSpec<F>)>,
) -> bool {
    forall|k: ClaimKey<F>| #[trigger]
        table.contains_key(k) ==> table[k].1 == (if is_leaf(oracles[k.0 as int].variant) {
            leaf_proof(oracles[k.0 as int].variant)
        } else {
            assembled_from(oracles, table, k)
        })
}

/// Whether every claim has the true value of its key.
pub open spec fn claims_true<F: Field>(
    oracles: Seq<MultilinearPolyOracle<F>>,
    leaf: spec_fn(ClaimKey<F>) -> F,
    claims: Seq<ClaimSpec<F>>,
) -> bool {
    forall|i: int|
        0 <= i < claims.len() ==> (#[trigger] claims[i]).eval == value_of(
            oracles,
            leaf,
            claims[i].key(),
        )
}

/// Whether the engine holds nothing but truth: the finalized entries, the
/// pending claims and the queued claims all have the true values of their
/// keys, and the finalized proofs belong to their keys.
pub open spec fn truthful<F: Field>(
    oracles: Seq<MultilinearPolyOracle<F>>,
    leaf: spec_fn(ClaimKey<F>) -> F,
    st: ProverState<F>,
) -> bool {
    &&& table_true(oracles, leaf, st.finalized)
    &&& table_shaped(oracles, st.finalized)
    &&& forall|k: ClaimKey<F>| #[trigger]
        st.pending.contains_key(k) ==> st.pending[k].eval == value_of(oracles, leaf, k)
    &&& claims_true(oracles, leaf, st.queue)
}

/// Whether the witness agrees with the oracles: the column of an oracle,
/// evaluated at a point, gives the value of the polynomial that the
/// oracle stands for.
pub open spec fn witness_consistent<F: Field>(
    oracles: Seq<MultilinearPolyOracle<F>>,
    columns: Seq<Option<Vec<F>>>,
    leaf: spec_fn(ClaimKey<F>) -> F,
) -> bool {
    forall|k: ClaimKey<F>|
        key_ok(oracles, k) && column_of(columns, k.0) is Some ==> #[trigger] value_of(
            oracles,
            leaf,
            k,
        ) == evaluate_spec(column_of(columns, k.0)->0, k.1)
}

/// The value claimed of the only polynomial of a linear combination is
/// its true value where the value claimed of the combination is.
pub proof fn lemma_single_term_true<F: Field>(offset: F, coeff: F, w: F)
    requires
        coeff != F::zero(),
    ensures
        single_term_eval(offset.add_spec(coeff.mul_spec(w)), offset, coeff) == w,
{
    let cw = coeff.mul_spec(w);
    let inverse = coeff.invert_or_zero_spec();
    F::lemma_add_laws(offset, cw, offset);
    F::lemma_add_laws(cw, offset, offset);
    assert(offset.add_spec(cw).sub_spec(offset) == cw);
    F::lemma_inverse(coeff);
    F::lemma_mul_laws(coeff, w, inverse);
    F::lemma_mul_laws(w, coeff, inverse);
    F::lemma_mul_laws(w, inverse, coeff);
    assert(cw.mul_spec(inverse) == w.mul_spec(coeff).mul_spec(inverse));
    assert(w.mul_spec(coeff).mul_spec(inverse) == w.mul_spec(coeff.mul_spec(inverse)));
    assert(w.mul_spec(F::one()) == w);
}

/// The proof put together for a key from a table is the same from any
/// table that holds the same entries for the children.
proof fn lemma_assembled_from_same<F>(
    oracles: Seq<MultilinearPolyOracle<F>>,
    table: Map<ClaimKey<F>, (F, ProofSpec<F>)>,
    other: Map<ClaimKey<F>, (F, ProofSpec<F>)>,
    key: ClaimKey<F>,
)
    requires
        forall|j: int|
            0 <= j < child_keys(oracles, key).len() ==> table[#[trigger] child_keys(oracles, key)[j]]
                == other[child_keys(oracles, key)[j]],
    ensures
        assembled_from(oracles, table, key) == assembled_from(oracles, other, key),
{
    let kids = child_keys(oracles, key);
    assert(Seq::new(kids.len(), |j: int| table[kids[j]]) =~= Seq::new(
        kids.len(),
        |j: int| other[kids[j]],
    ));
}

/// Reducing a true claim keeps the engine truthful.
pub proof fn lemma_reduce_truthful<F: Field>(
    oracles: Seq<MultilinearPolyOracle<F>>,
    leaf: spec_fn(ClaimKey<F>) -> F,
    st: ProverState<F>,
    flight: Seq<ClaimSpec<F>>,
)
    requires
        oracles_wf(oracles),
        flight.len() > 0,
        state_inv(oracles, st, flight),
        truthful(oracles, leaf, st),
        flight[0].eval == value_of(oracles, leaf, flight[0].key()),
    ensures
        truthful(oracles, leaf, reduce(oracles, st, flight[0])),
{
    let claim = flight[0];
    let key = claim.key();
    let next = reduce(oracles, st, claim);
    let variant = oracles[claim.id as int].variant;
    let kids = child_keys(oracles, key);
    assert(claim_ok(oracles, claim));
    assert(oracle_fits(oracles, claim.id as int));
    assert forall|k: ClaimKey<F>| #[trigger] next.finalized.contains_key(k) implies next.finalized[k].1
        == (if is_leaf(oracles[k.0 as int].variant) {
        leaf_proof(oracles[k.0 as int].variant)
    } else {
        assembled_from(oracles, next.finalized, k)
    }) by {
        if st.finalized.contains_key(k) {
            assert(children_finalized(oracles, st.finalized, k));
            lemma_assembled_from_same(oracles, st.finalized, next.finalized, k);
        }
    }
    assert forall|i: int| 0 <= i < next.queue.len() implies (#[trigger] next.queue[i]).eval
        == value_of(oracles, leaf, next.queue[i].key()) by {
        if i < st.queue.len() {
            assert(next.queue[i] == st.queue[i]);
        } else {
            lemma_child_keys_ok(oracles, key, 0);
            match variant {
                OracleVariant::LinearCombination { offset, terms } => {
                    let w = value_of(oracles, leaf, kids[0]);
                    assert(combination_of(oracles, leaf, key, 0) == offset);
                    assert(combination_of(oracles, leaf, key, 1) == offset.add_spec(
                        terms@[0].1.mul_spec(w),
                    ));
                    lemma_single_term_true(offset, terms@[0].1, w);
                },
                _ => {},
            }
        }
    }
}

/// Reducing true claims keeps the invariant and the engine truthful.
pub proof fn lemma_reduce_prefix_truthful<F: Field>(
    oracles: Seq<MultilinearPolyOracle<F>>,
    leaf: spec_fn(ClaimKey<F>) -> F,
    st: ProverState<F>,
    claims: Seq<ClaimSpec<F>>,
    n: nat,
)
    requires
        oracles_wf(oracles),
        n <= claims.len(),
        state_inv(oracles, st, claims),
        truthful(oracles, leaf, st),
        claims_true(oracles, leaf, claims),
    ensures
        truthful(oracles, leaf, reduce_prefix(oracles, st, claims, n)),
        state_inv(oracles, reduce_prefix(oracles, st, claims, n), claims.skip(n as int)),
    decreases n,
{
    if n == 0 {
        assert(claims.skip(0) =~= claims);
    } else {
        lemma_reduce_prefix_truthful(oracles, leaf, st, claims, (n - 1) as nat);
        let prev = reduce_prefix(oracles, st, claims, (n - 1) as nat);
        let flight = claims.skip(n - 1);
        assert(flight[0] == claims[n - 1]);
        assert(flight.drop_first() =~= claims.skip(n as int));
        lemma_reduce_keeps_inv(oracles, prev, flight);
        lemma_reduce_truthful(oracles, leaf, prev, flight);
    }
}

/// One step of the engine keeps the invariant and the engine truthful,
/// where the witness agrees with the oracles.
pub proof fn lemma_step_truthful<F: Field>(
    oracles: Seq<MultilinearPolyOracle<F>>,
    columns: Seq<Option<Vec<F>>>,
    leaf: spec_fn(ClaimKey<F>) -> F,
    st: ProverState<F>,
)
    requires
        oracles_wf(oracles),
        state_inv(oracles, st, Seq::empty()),
        truthful(oracles, leaf, st),
        witness_consistent(oracles, columns, leaf),
        step(oracles, columns, st) is Some,
    ensures
        truthful(oracles, leaf, step(oracles, columns, st)->0),
        state_inv(oracles, step(oracles, columns, st)->0, Seq::empty()),
{
    if st.queue.len() > 0 {
        let base = ProverState { queue: Seq::empty(), ..st };
        lemma_start_drain(oracles, st);
        lemma_reduce_prefix_truthful(oracles, leaf, base, st.queue, st.queue.len());
        assert(st.queue.skip(st.queue.len() as int) =~= Seq::empty());
    } else if st.needs_eval.len() > 0 {
        let fresh = fresh_keys(st, st.needs_eval.len());
        let base = evaluation_base(st);
        let claims = valued_claims(columns, fresh);
        lemma_start_evaluation(oracles, columns, st);
        assert forall|i: int| 0 <= i < claims.len() implies (#[trigger] claims[i]).eval
            == value_of(oracles, leaf, claims[i].key()) by {
            assert(claim_ok(oracles, claims[i]));
            assert(column_of(columns, fresh[i].0) is Some);
            assert(value_of(oracles, leaf, fresh[i]) == evaluate_spec(
                column_of(columns, fresh[i].0)->0,
                fresh[i].1,
            ));
        }
        lemma_reduce_prefix_truthful(oracles, leaf, base, claims, claims.len());
        assert(claims.skip(claims.len() as int) =~= Seq::empty());
    }
}

/// Any number of steps keeps the invariant and the engine truthful.
pub proof fn lemma_run_truthful<F: Field>(
    oracles: Seq<MultilinearPolyOracle<F>>,
    columns: Seq<Option<Vec<F>>>,
    leaf: spec_fn(ClaimKey<F>) -> F,
    st: ProverState<F>,
    n: nat,
)
    requires
        oracles_wf(oracles),
        state_inv(oracles, st, Seq::empty()),
        truthful(oracles, leaf, st),
        witness_consistent(oracles, columns, leaf),
        run(oracles, columns, st, n) is Some,
    ensures
        truthful(oracles, leaf, run(oracles, columns, st, n)->0),
        state_inv(oracles, run(oracles, columns, st, n)->0, Seq::empty()),
    decreases n,
{
    if n > 0 {
        lemma_run_truthful(oracles, columns, leaf, st, (n - 1) as nat);
        lemma_step_truthful(oracles, columns, leaf, run(oracles, columns, st, (n - 1) as nat)->0);
    }
}

/// Once a truthful engine rests, the table that completes every pending
/// claim holds the true value and the fitting proof for every key.
pub proof fn lemma_complete_truthful<F: Field>(
    oracles: Seq<MultilinearPolyOracle<F>>,
    leaf: spec_fn(ClaimKey<F>) -> F,
    st: ProverState<F>,
)
    requires
        oracles_wf(oracles),
        state_inv(oracles, st, Seq::empty()),
        quiescent(st),
        truthful(oracles, leaf, st),
    ensures
        table_true(oracles, leaf, completed(oracles, st)),
        table_shaped(oracles, completed(oracles, st)),
        finalized_inv(oracles, completed(oracles, st)),
{
    lemma_complete_shaped(oracles, st);
    assert forall|k: ClaimKey<F>| #[trigger]
        completed(oracles, st).contains_key(k) implies completed(oracles, st)[k].0 == value_of(
        oracles,
        leaf,
        k,
    ) by {}
}

/// The weighted sum over the values that the table holds for the children
/// of a linear combination is the value of the combination, where the
/// table is true.
proof fn lemma_table_combination<F: Field>(
    oracles: Seq<MultilinearPolyOracle<F>>,
    leaf: spec_fn(ClaimKey<F>) -> F,
    table: Map<ClaimKey<F>, (F, ProofSpec<F>)>,
    key: ClaimKey<F>,
    n: nat,
)
    requires
        oracles_wf(oracles),
        key_ok(oracles, key),
        oracles[key.0 as int].variant is LinearCombination,
        table_true(oracles, leaf, table),
        children_finalized(oracles, table, key),
        n <= child_keys(oracles, key).len(),
    ensures
        combination_value(
            oracles[key.0 as int].variant->LinearCombination_offset,
            oracles[key.0 as int].variant->LinearCombination_terms@,
            entry_evals(Seq::new(child_keys(oracles, key).len(), |j: int| table[child_keys(oracles, key)[j]])),
            n,
        ) == combination_of(oracles, leaf, key, n),
    decreases n,
{
    if n > 0 {
        lemma_table_combination(oracles, leaf, table, key, (n - 1) as nat);
        lemma_child_keys_ok(oracles, key, n - 1);
        let kids = child_keys(oracles, key);
        assert(table.contains_key(kids[n - 1]));
    }
}

/// What the verifier hands on is what the prover's walk collects.
pub open spec fn same_leaves<F>(leaves: Leaves<F>, found: Collected<F>) -> bool {
    leaves.committed == found.committed && leaves.bivariate == found.bivariate
}

/// A true claim verifies against the proof that a true, closed table of
/// fitting proofs holds for its key: the verifier's reduction succeeds,
/// hands on the very claims on committed, shifted and packed oracles that
/// the prover's walk collects, in the same order, and every claim that it
/// hands on is true.
pub proof fn lemma_true_claim_verifies<F: Field>(
    oracles: Seq<MultilinearPolyOracle<F>>,
    leaf: spec_fn(ClaimKey<F>) -> F,
    table: Map<ClaimKey<F>, (F, ProofSpec<F>)>,
    claim: ClaimSpec<F>,
)
    requires
        oracles_wf(oracles),
        finalized_inv(oracles, table),
        table_true(oracles, leaf, table),
        table_shaped(oracles, table),
        table.contains_key(claim.key()),
        claim.eval == value_of(oracles, leaf, claim.key()),
    ensures
        verified(oracles, claim, table[claim.key()].1) is Ok,
        same_leaves(
            verified(oracles, claim, table[claim.key()].1)->Ok_0,
            collect(oracles, table, claim),
        ),
        all_true(verified(oracles, claim, table[claim.key()].1)->Ok_0, leaf),
    decreases claim.id, 1int, 0nat,
{
    let key = claim.key();
    let tree = table[key].1;
    let variant = oracles[claim.id as int].variant;
    let kids = child_keys(oracles, key);
    assert(key_ok(oracles, key));
    assert(oracle_fits(oracles, claim.id as int));
    assert(children_finalized(oracles, table, key));
    let from_table = Seq::new(kids.len(), |j: int| table[kids[j]]);
    if is_leaf(variant) {
        let leaves = leaf_of(variant, claim);
        assert forall|l: ClaimSpec<F>| #[trigger] leaves.holds(l) implies l.eval == leaf(l.key()) by {
            if leaves.committed.contains(l) {
                assert(l == claim);
            } else if leaves.bivariate.contains(l) {
                assert(l == claim);
            } else {
                assert(l == claim);
            }
        }
    } else {
        assert(tree == assembled(variant, from_table));
        match variant {
            OracleVariant::LinearCombination { offset, terms } => {
                assert(tree->subproofs == from_table);
                lemma_table_combination(oracles, leaf, table, key, terms@.len());
            },
            OracleVariant::ZeroPadded { inner } => {
                lemma_child_keys_ok(oracles, key, 0);
                assert(from_table[0] == table[kids[0]]);
                assert(table.contains_key(kids[0]));
            },
            OracleVariant::Repeating { .. } => {
                assert(from_table[0] == table[kids[0]]);
            },
            _ => {
                assert(from_table[0] == table[kids[0]]);
            },
        }
        assert(shape_matches(variant, tree));
        assert(value_checks(oracles, claim, tree));
        lemma_true_children_verify(oracles, leaf, table, claim, kids.len());
        assert(child_claims(oracles, table, claim).len() == kids.len());
    }
}

/// The first `n` children of a true claim verify against the proofs that
/// the table holds for them.
pub proof fn lemma_true_children_verify<F: Field>(
    oracles: Seq<MultilinearPolyOracle<F>>,
    leaf: spec_fn(ClaimKey<F>) -> F,
    table: Map<ClaimKey<F>, (F, ProofSpec<F>)>,
    claim: ClaimSpec<F>,
    n: nat,
)
    requires
        oracles_wf(oracles),
        finalized_inv(oracles, table),
        table_true(oracles, leaf, table),
        table_shaped(oracles, table),
        table.contains_key(claim.key()),
        claim.eval == value_of(oracles, leaf, claim.key()),
        !is_leaf(oracles[claim.id as int].variant),
        n <= child_keys(oracles, claim.key()).len(),
    ensures
        verified_children(oracles, claim, table[claim.key()].1, n) is Ok,
        same_leaves(
            verified_children(oracles, claim, table[claim.key()].1, n)->Ok_0,
            collect_children(oracles, table, claim, n),
        ),
        all_true(verified_children(oracles, claim, table[claim.key()].1, n)->Ok_0, leaf),
    decreases claim.id, 0int, n,
{
    let key = claim.key();
    let tree = table[key].1;
    let variant = oracles[claim.id as int].variant;
    let kids = child_keys(oracles, key);
    if n == 0 {
        assert forall|l: ClaimSpec<F>| #[trigger] Leaves::<F>::none().holds(l) implies l.eval
            == leaf(l.key()) by {}
    } else {
        lemma_true_children_verify(oracles, leaf, table, claim, (n - 1) as nat);
        assert(key_ok(oracles, key));
        assert(oracle_fits(oracles, claim.id as int));
        assert(children_finalized(oracles, table, key));
        lemma_child_keys_ok(oracles, key, n - 1);
        let from_table = Seq::new(kids.len(), |j: int| table[kids[j]]);
        assert(tree == assembled(variant, from_table));
        assert(from_table[n - 1] == table[kids[n - 1]]);
        assert(table.contains_key(kids[n - 1]));
        let child = child_claim(oracles, claim, tree, n - 1);
        let entries = child_entries(variant, claim.eval, tree);
        assert(entries[n - 1].1 == table[kids[n - 1]].1);
        assert(child == child_claims(oracles, table, claim)[n - 1]);
        assert(child.eval == value_of(oracles, leaf, kids[n - 1]));
        lemma_true_claim_verifies(oracles, leaf, table, child);
        let before = verified_children(oracles, claim, tree, (n - 1) as nat)->Ok_0;
        let leaves = verified(oracles, child, entries[n - 1].1)->Ok_0;
        let both = before.append(leaves);
        assert forall|l: ClaimSpec<F>| #[trigger] both.holds(l) implies l.eval == leaf(l.key()) by {
            if both.committed.contains(l) {
                let i = choose|i: int| 0 <= i < both.committed.len() && both.committed[i] == l;
                if i < before.committed.len() {
                    assert(before.committed[i] == l);
                    assert(before.holds(l));
                } else {
                    assert(leaves.committed[i - before.committed.len()] == l);
                    assert(leaves.holds(l));
                }
            } else if both.bivariate.contains(l) {
                let i = choose|i: int| 0 <= i < both.bivariate.len() && both.bivariate[i] == l;
                if i < before.bivariate.len() {
                    assert(before.bivariate[i] == l);
                    assert(before.holds(l));
                } else {
                    assert(leaves.bivariate[i - before.bivariate.len()] == l);
                    assert(leaves.holds(l));
                }
            } else {
                let i = choose|i: int| 0 <= i < both.transparent.len() && both.transparent[i] == l;
                if i < before.transparent.len() {
                    assert(before.transparent[i] == l);
                    assert(before.holds(l));
                } else {
                    assert(leaves.transparent[i - before.transparent.len()] == l);
                    assert(leaves.holds(l));
                }
            }
        }
    }
}

/// Round trip: where the witness agrees with the oracles and the prover
/// has been given nothing but true claims, each claim of a batch verifies
/// against the proof that `prove` returns for it. The verifier's
/// reduction succeeds, so the value of the claim follows from the values
/// in the proof; it hands on the claims on committed, shifted and packed
/// oracles that the prover collected for the claim, in the same order;
/// and all the claims that it hands on are true.
pub proof fn lemma_round_trip<F: Field>(
    oracles: Seq<MultilinearPolyOracle<F>>,
    columns: Seq<Option<Vec<F>>>,
    leaf: spec_fn(ClaimKey<F>) -> F,
    st: ProverState<F>,
    claims: Seq<ClaimSpec<F>>,
    rest: ProverState<F>,
    i: int,
)
    requires
        oracles_wf(oracles),
        witness_consistent(oracles, columns, leaf),
        state_inv(oracles, st, Seq::empty()),
        truthful(oracles, leaf, st),
        forall|k: int| 0 <= k < claims.len() ==> claim_ok(oracles, #[trigger] claims[k]),
        claims_true(oracles, leaf, claims),
        reached(oracles, columns, st, claims, rest),
        0 <= i < claims.len(),
    ensures
        complete_all(oracles, rest).finalized.contains_key(claims[i].key()),
        verified(
            oracles,
            claims[i],
            complete_all(oracles, rest).finalized[claims[i].key()].1,
        ) is Ok,
        same_leaves(
            verified(
                oracles,
                claims[i],
                complete_all(oracles, rest).finalized[claims[i].key()].1,
            )->Ok_0,
            collect(oracles, complete_all(oracles, rest).finalized, claims[i]),
        ),
        all_true(
            verified(
                oracles,
                claims[i],
                complete_all(oracles, rest).finalized[claims[i].key()].1,
            )->Ok_0,
            leaf,
        ),
{
    let seeded = seed(st, claims);
    let none = Seq::<ClaimSpec<F>>::empty();
    lemma_seed_inv(oracles, st, claims);
    assert forall|k: int| 0 <= k < seeded.queue.len() implies (#[trigger] seeded.queue[k]).eval
        == value_of(oracles, leaf, seeded.queue[k].key()) by {
        if k < st.queue.len() {
            assert(seeded.queue[k] == st.queue[k]);
        } else {
            assert(seeded.queue[k] == claims[k - st.queue.len()]);
        }
    }
    let n = choose|n: nat| #[trigger] run(oracles, columns, seeded, n) == Some(rest);
    lemma_run_truthful(oracles, columns, leaf, seeded, n);
    lemma_run_keeps_dedup(oracles, columns, seeded, n);
    lemma_complete_truthful(oracles, leaf, rest);
    let key = claims[i].key();
    assert(claim_keys(claims)[i] == key);
    assert(claim_keys(claims).to_set().contains(key));
    assert(seeded.dedup.contains(key));
    assert(rest.dedup.contains(key));
    assert(accounted(rest, none, key));
    lemma_true_claim_verifies(oracles, leaf, completed(oracles, rest), claims[i]);
}

/// Whether the witness holds a column for every oracle.
pub open spec fn witness_complete<F>(
    oracles: Seq<MultilinearPolyOracle<F>>,
    columns: Seq<Option<Vec<F>>>,
) -> bool {
    forall|id: OracleId|
        id < oracles.len() ==> (#[trigger] column_of(columns, id)) is Some
}

/// An engine that has seen no claim keeps the invariant and holds nothing
/// but truth.
pub proof fn lemma_empty_state_truthful<F: Field>(
    oracles: Seq<MultilinearPolyOracle<F>>,
    leaf: spec_fn(ClaimKey<F>) -> F,
)
    ensures
        state_inv(oracles, empty_state::<F>(), Seq::empty()),
        truthful(oracles, leaf, empty_state::<F>()),
{
}

/// Success is owed where the witness is complete: `prove` does not fail on
/// valid claims where the witness holds a column for every oracle.
pub proof fn lemma_complete_witness_succeeds<F: Field>(
    before: EvalcheckProver<F>,
    after: EvalcheckProver<F>,
    claims: Seq<ClaimSpec<F>>,
    r: Result<Vec<EvalcheckProof<F>>, Error>,
)
    requires
        before.inv(),
        claims_ok(before.oracles_spec(), claims),
        witness_complete(before.oracles_spec(), before.columns_spec()),
        before.prove_post(&after, claims, r),
    ensures
        r is Ok,
{
    let oracles = before.oracles_spec();
    let columns = before.columns_spec();
    let st = before.state();
    let seeded = seed(st, claims);
    before.lemma_inv_unfolds();
    lemma_seed_inv(oracles, st, claims);
    if r is Err {
        let e = r->Err_0;
        if exists|n: nat| #[trigger] fails_after(oracles, columns, seeded, n, e) {
            let n = choose|n: nat| #[trigger]
                fails_after(oracles, columns, seeded, n, e);
            let last = run(oracles, columns, seeded, n)->0;
            lemma_run_keeps_inv(oracles, columns, seeded, n);
            let fresh = fresh_keys(last, last.needs_eval.len());
            let i = choose|i: int| #[trigger]
                first_unvalued(columns, fresh, i) && e
                    == Error::Witness(
                    WitnessError::MissingWitness { id: fresh[i].0 },
                );
            lemma_fresh_keys(last, last.needs_eval.len());
            assert(last.needs_eval.take(last.needs_eval.len() as int) =~= last.needs_eval);
            assert(last.needs_eval.contains(fresh[i]));
            let j = choose|j: int| 0 <= j < last.needs_eval.len() && last.needs_eval[j] == fresh[i];
            assert(key_ok(oracles, last.needs_eval[j]));
            assert(column_of(columns, fresh[i].0) is Some);
        } else {
            let rest = choose|rest: ProverState<F>| #[trigger]
                reached(oracles, columns, st, claims, rest)
                    && reports_first_unprojectable(
                    oracles,
                    columns,
                    leaf_claims(oracles, rest, claims).bivariate,
                    e,
                );
            let found = leaf_claims(oracles, rest, claims).bivariate;
            let i = choose|i: int| #[trigger]
                first_unprojectable(oracles, columns, found, i) && e
                    == Error::Witness(
                    WitnessError::MissingWitness {
                        id: bivariate_inner(oracles[found[i].id as int].variant),
                    },
                );
            assert forall|k: int| 0 <= k < claims.len() implies depth(
                oracles,
                (#[trigger] claims[k]).id as int,
            ) <= max_depth(oracles, claims) by {
                lemma_max_depth_bounds(oracles, claims, claims.len(), k);
            }
            lemma_collect_all_depth(
                oracles,
                complete_all(oracles, rest).finalized,
                claims,
                claims.len(),
                max_depth(oracles, claims),
            );
            assert(claim_ok(oracles, found[i]));
            assert(oracle_fits(oracles, found[i].id as int));
            let inner = bivariate_inner(oracles[found[i].id as int].variant);
            assert(column_of(columns, inner) is Some);
        }
    }
}

/// Round trip through `prove`: where a prover that holds nothing but
/// truth, as one that has seen no claim does, is given true claims and a
/// witness that agrees with the oracles, each claim verifies against the
/// proof that `prove` returns for it. The verifier's reduction succeeds,
/// so the value of the claim follows from the values in the proof, and
/// every claim that it hands on is true.
pub proof fn lemma_proofs_verify<F: Field>(
    before: EvalcheckProver<F>,
    after: EvalcheckProver<F>,
    claims: Seq<ClaimSpec<F>>,
    proofs: Vec<EvalcheckProof<F>>,
    leaf: spec_fn(ClaimKey<F>) -> F,
    i: int,
)
    requires
        before.inv(),
        truthful(before.oracles_spec(), leaf, before.state()),
        claims_ok(before.oracles_spec(), claims),
        claims_true(before.oracles_spec(), leaf, claims),
        witness_consistent(before.oracles_spec(), before.columns_spec(), leaf),
        before.prove_post(&after, claims, Ok(proofs)),
        0 <= i < claims.len(),
    ensures
        proofs@.len() == claims.len(),
        verified(before.oracles_spec(), claims[i], proofs@[i]@) is Ok,
        all_true(verified(before.oracles_spec(), claims[i], proofs@[i]@)->Ok_0, leaf),
{
    let oracles = before.oracles_spec();
    let columns = before.columns_spec();
    let st = before.state();
    before.lemma_inv_unfolds();
    let rest = choose|rest: ProverState<F>| #[trigger]
        reached(oracles, columns, st, claims, rest) && before.proved(
            &after,
            claims,
            rest,
            proofs_view(proofs@),
        );
    lemma_round_trip(oracles, columns, leaf, st, claims, rest, i);
    let table = complete_all(oracles, rest).finalized;
    assert(proofs_view(proofs@).len() == proofs@.len());
    assert(proofs_of(table, claims).len() == claims.len());
    assert(proofs_view(proofs@)[i] == proofs_of(table, claims)[i]);
}

/// The value of the polynomial of a valid key stays what it is when
/// oracles are added.
pub proof fn lemma_value_of_extension<F: Field>(
    before: Seq<MultilinearPolyOracle<F>>,
    after: Seq<MultilinearPolyOracle<F>>,
    leaf: spec_fn(ClaimKey<F>) -> F,
    key: ClaimKey<F>,
)
    requires
        oracles_wf(before),
        extends(before, after),
        key_ok(before, key),
    ensures
        value_of(after, leaf, key) == value_of(before, leaf, key),
    decreases key.0, 1int, 0nat,
{
    lemma_extension_keeps_children(before, after, key);
    assert(oracle_fits(before, key.0 as int));
    let kids = child_keys(before, key);
    match before[key.0 as int].variant {
        OracleVariant::Repeating { inner, log_count } => {
            lemma_child_keys_ok(before, key, 0);
            lemma_value_of_extension(before, after, leaf, kids[0]);
        },
        OracleVariant::Projected { inner, values, variant } => {
            lemma_child_keys_ok(before, key, 0);
            lemma_value_of_extension(before, after, leaf, kids[0]);
        },
        OracleVariant::ZeroPadded { inner } => {
            lemma_child_keys_ok(before, key, 0);
            lemma_value_of_extension(before, after, leaf, kids[0]);
            assert(after.take(before.len() as int)[inner as int] == after[inner as int]);
        },
        OracleVariant::LinearCombination { offset, terms } => {
            lemma_combination_of_extension(before, after, leaf, key, terms@.len());
        },
        _ => {},
    }
}

proof fn lemma_combination_of_extension<F: Field>(
    before: Seq<MultilinearPolyOracle<F>>,
    after: Seq<MultilinearPolyOracle<F>>,
    leaf: spec_fn(ClaimKey<F>) -> F,
    key: ClaimKey<F>,
    n: nat,
)
    requires
        oracles_wf(before),
        extends(before, after),
        key_ok(before, key),
        before[key.0 as int].variant is LinearCombination,
        n <= child_keys(before, key).len(),
    ensures
        combination_of(after, leaf, key, n) == combination_of(before, leaf, key, n),
    decreases key.0, 0int, n,
{
    lemma_extension_keeps_children(before, after, key);
    if n > 0 {
        lemma_combination_of_extension(before, after, leaf, key, (n - 1) as nat);
        lemma_child_keys_ok(before, key, n - 1);
        lemma_value_of_extension(before, after, leaf, child_keys(before, key)[n - 1]);
    }
}

/// An engine that holds nothing but truth still does when oracles are
/// added.
pub proof fn lemma_truthful_extension<F: Field>(
    before: Seq<MultilinearPolyOracle<F>>,
    after: Seq<MultilinearPolyOracle<F>>,
    leaf: spec_fn(ClaimKey<F>) -> F,
    st: ProverState<F>,
)
    requires
        oracles_wf(before),
        extends(before, after),
        state_inv(before, st, Seq::empty()),
        truthful(before, leaf, st),
    ensures
        truthful(after, leaf, st),
{
    let none = Seq::<ClaimSpec<F>>::empty();
    assert forall|k: ClaimKey<F>| #[trigger] st.finalized.contains_key(k) implies st.finalized[k].0
        == value_of(after, leaf, k) && st.finalized[k].1 == (if is_leaf(
        after[k.0 as int].variant,
    ) {
        leaf_proof(after[k.0 as int].variant)
    } else {
        assembled_from(after, st.finalized, k)
    }) by {
        lemma_value_of_extension(before, after, leaf, k);
        lemma_extension_keeps_children(before, after, k);
    }
    assert forall|k: ClaimKey<F>| #[trigger] st.pending.contains_key(k) implies st.pending[k].eval
        == value_of(after, leaf, k) by {
        assert(pending_ok(before, st, none, k));
        lemma_value_of_extension(before, after, leaf, k);
    }
    assert forall|i: int| 0 <= i < st.queue.len() implies (#[trigger] st.queue[i]).eval
        == value_of(after, leaf, st.queue[i].key()) by {
        assert(claim_ok(before, st.queue[i]));
        lemma_value_of_extension(before, after, leaf, st.queue[i].key());
    }
}

/// The sumcheck instances keep the witness in agreement with the oracles:
/// the column that is stored for the projection of an instance is that of
/// the projected polynomial, because fixing the high variables of a
/// polynomial and evaluating what is left gives its value at the joined
/// point.
pub proof fn lemma_materialized_witness_consistent<F: Field>(
    oracles: Seq<MultilinearPolyOracle<F>>,
    columns: Seq<Option<Vec<F>>>,
    grown: Seq<MultilinearPolyOracle<F>>,
    filled: Seq<Option<Vec<F>>>,
    claims: Seq<ClaimSpec<F>>,
    leaf: spec_fn(ClaimKey<F>) -> F,
)
    requires
        oracles_wf(oracles),
        grown.len() <= usize::MAX,
        witness_fits(oracles, columns),
        witness_consistent(oracles, columns, leaf),
        bivariate_ok(oracles, claims),
        projectable(oracles, columns, claims),
        oracles_extended(oracles, grown, claims, claims.len()),
        columns_extended(oracles, columns, filled, claims, claims.len()),
    ensures
        witness_consistent(grown, filled, leaf),
{
    let n = claims.len();
    lemma_base_of_grows(oracles, claims, 0, n);
    assert(extends(oracles, grown));
    assert forall|k: ClaimKey<F>|
        key_ok(grown, k) && column_of(filled, k.0) is Some implies #[trigger] value_of(
        grown,
        leaf,
        k,
    ) == evaluate_spec(column_of(filled, k.0)->0, k.1) by {
        if k.0 < oracles.len() {
            assert(grown.take(oracles.len() as int)[k.0 as int] == grown[k.0 as int]);
            assert(column_of(filled, k.0) == column_of(columns, k.0));
            lemma_value_of_extension(oracles, grown, leaf, k);
        } else {
            let i = choose|i: int|
                0 <= i < n && (#[trigger] meta_of(oracles, claims, i)).projected_id
                    == Some(k.0);
            let claim = claims[i];
            let meta = meta_of(oracles, claims, i);
            let variant = oracles[claim.id as int].variant;
            let inner = bivariate_inner(variant);
            let high = high_point(variant, claim.point);
            assert(added_ok(oracles, grown, claims, i));
            assert(claim_ok(oracles, claim));
            assert(oracle_fits(oracles, claim.id as int));
            assert(projectable_one(oracles, columns, claim));
            assert(column_of(filled, k.0) == Some(
                projected_column(oracles, columns, claim),
            ));
            lemma_base_of_grows(oracles, claims, i as nat, n);
            lemma_base_of_grows(oracles, claims, 0, i as nat);
            assert(inner < k.0);
            let joined: ClaimKey<F> = (inner, k.1 + high);
            assert(child_keys(grown, k) =~= seq![joined]);
            assert(grown.take(oracles.len() as int)[inner as int] == grown[inner as int]);
            assert(key_ok(oracles, joined));
            lemma_value_of_extension(oracles, grown, leaf, joined);
            assert(column_of(columns, inner) is Some);
            let column = column_of(columns, inner)->0;
            assert(column.len() == vstd::arithmetic::power2::pow2(
                oracles[inner as int].n_vars as nat,
            ));
            lemma_partial_evaluation(column, k.1, high);
        }
    }
}

/// Truth is kept: where a prover that holds nothing but truth is given
/// true claims and a witness that agrees with the oracles, it holds
/// nothing but truth after `prove`, and its witness, with the columns that
/// `prove` has added, still agrees with its oracles. So the round trip
/// holds in every round of the greedy evalcheck.
pub proof fn lemma_truth_is_kept<F: Field>(
    before: EvalcheckProver<F>,
    after: EvalcheckProver<F>,
    claims: Seq<ClaimSpec<F>>,
    proofs: Vec<EvalcheckProof<F>>,
    leaf: spec_fn(ClaimKey<F>) -> F,
)
    requires
        before.inv(),
        truthful(before.oracles_spec(), leaf, before.state()),
        claims_ok(before.oracles_spec(), claims),
        claims_true(before.oracles_spec(), leaf, claims),
        witness_consistent(before.oracles_spec(), before.columns_spec(), leaf),
        before.prove_post(&after, claims, Ok(proofs)),
    ensures
        truthful(after.oracles_spec(), leaf, after.state()),
        witness_consistent(after.oracles_spec(), after.columns_spec(), leaf),
{
    let oracles = before.oracles_spec();
    let columns = before.columns_spec();
    let st = before.state();
    let grown = after.oracles_spec();
    before.lemma_inv_unfolds();
    after.lemma_inv_unfolds();
    let rest = choose|rest: ProverState<F>| #[trigger]
        reached(oracles, columns, st, claims, rest) && before.proved(
            &after,
            claims,
            rest,
            proofs_view(proofs@),
        );
    let seeded = seed(st, claims);
    lemma_seed_inv(oracles, st, claims);
    assert forall|k: int| 0 <= k < seeded.queue.len() implies (#[trigger] seeded.queue[k]).eval
        == value_of(oracles, leaf, seeded.queue[k].key()) by {
        if k < st.queue.len() {
            assert(seeded.queue[k] == st.queue[k]);
        } else {
            assert(seeded.queue[k] == claims[k - st.queue.len()]);
        }
    }
    let n = choose|n: nat| #[trigger] run(oracles, columns, seeded, n) == Some(rest);
    lemma_run_truthful(oracles, columns, leaf, seeded, n);
    lemma_complete_truthful(oracles, leaf, rest);
    lemma_complete_all_inv(oracles, rest);
    let done = complete_all(oracles, rest);
    let found = leaf_claims(oracles, rest, claims).bivariate;
    assert forall|k: int| 0 <= k < claims.len() implies depth(
        oracles,
        (#[trigger] claims[k]).id as int,
    ) <= max_depth(oracles, claims) by {
        lemma_max_depth_bounds(oracles, claims, claims.len(), k);
    }
    lemma_collect_all_depth(
        oracles,
        done.finalized,
        claims,
        claims.len(),
        max_depth(oracles, claims),
    );
    lemma_base_of_grows(oracles, found, 0, found.len());
    assert(extends(oracles, grown));
    assert(truthful(oracles, leaf, done));
    lemma_truthful_extension(oracles, grown, leaf, done);
    lemma_materialized_witness_consistent(oracles, columns, grown, after.columns_spec(), found, leaf);
}

/// Reducing claims keeps the invariant and the proofs of the table
/// fitting their keys.
pub proof fn lemma_reduce_prefix_shaped<F: Field>(
    oracles: Seq<MultilinearPolyOracle<F>>,
    st: ProverState<F>,
    claims: Seq<ClaimSpec<F>>,
    n: nat,
)
    requires
        oracles_wf(oracles),
        n <= claims.len(),
        state_inv(oracles, st, claims),
        table_shaped(oracles, st.finalized),
    ensures
        table_shaped(oracles, reduce_prefix(oracles, st, claims, n).finalized),
        state_inv(oracles, reduce_prefix(oracles, st, claims, n), claims.skip(n as int)),
    decreases n,
{
    if n == 0 {
        assert(claims.skip(0) =~= claims);
    } else {
        lemma_reduce_prefix_shaped(oracles, st, claims, (n - 1) as nat);
        let prev = reduce_prefix(oracles, st, claims, (n - 1) as nat);
        let flight = claims.skip(n - 1);
        let next = reduce(oracles, prev, claims[n - 1]);
        assert(flight[0] == claims[n - 1]);
        assert(flight.drop_first() =~= claims.skip(n as int));
        lemma_reduce_keeps_inv(oracles, prev, flight);
        assert forall|k: ClaimKey<F>| #[trigger] next.finalized.contains_key(k) implies next.finalized[k].1
            == (if is_leaf(oracles[k.0 as int].variant) {
            leaf_proof(oracles[k.0 as int].variant)
        } else {
            assembled_from(oracles, next.finalized, k)
        }) by {
            if prev.finalized.contains_key(k) {
                assert(children_finalized(oracles, prev.finalized, k));
                lemma_assembled_from_same(oracles, prev.finalized, next.finalized, k);
            }
        }
    }
}

/// Any number of steps keeps the invariant and the proofs of the table
/// fitting their keys.
pub proof fn lemma_run_shaped<F: Field>(
    oracles: Seq<MultilinearPolyOracle<F>>,
    columns: Seq<Option<Vec<F>>>,
    st: ProverState<F>,
    n: nat,
)
    requires
        oracles_wf(oracles),
        state_inv(oracles, st, Seq::empty()),
        table_shaped(oracles, st.finalized),
        run(oracles, columns, st, n) is Some,
    ensures
        table_shaped(oracles, run(oracles, columns, st, n)->0.finalized),
        state_inv(oracles, run(oracles, columns, st, n)->0, Seq::empty()),
    decreases n,
{
    if n > 0 {
        lemma_run_shaped(oracles, columns, st, (n - 1) as nat);
        let prev = run(oracles, columns, st, (n - 1) as nat)->0;
        if prev.queue.len() > 0 {
            let base = ProverState { queue: Seq::empty(), ..prev };
            lemma_start_drain(oracles, prev);
            lemma_reduce_prefix_shaped(oracles, base, prev.queue, prev.queue.len());
            assert(prev.queue.skip(prev.queue.len() as int) =~= Seq::empty());
        } else if prev.needs_eval.len() > 0 {
            let fresh = fresh_keys(prev, prev.needs_eval.len());
            let claims = valued_claims(columns, fresh);
            lemma_start_evaluation(oracles, columns, prev);
            lemma_reduce_prefix_shaped(oracles, evaluation_base(prev), claims, claims.len());
            assert(claims.skip(claims.len() as int) =~= Seq::empty());
        }
    }
}

/// Once the engine rests, the table that completes every pending claim
/// holds the fitting proof for every key.
pub proof fn lemma_complete_shaped<F: Field>(oracles: Seq<MultilinearPolyOracle<F>>, st: ProverState<F>)
    requires
        oracles_wf(oracles),
        state_inv(oracles, st, Seq::empty()),
        quiescent(st),
        table_shaped(oracles, st.finalized),
    ensures
        table_shaped(oracles, completed(oracles, st)),
        finalized_inv(oracles, completed(oracles, st)),
{
    let table = completed(oracles, st);
    let none = Seq::<ClaimSpec<F>>::empty();
    lemma_complete_all_inv(oracles, st);
    assert(complete_all(oracles, st).finalized == table);
    assert forall|k: ClaimKey<F>| #[trigger] table.contains_key(k) implies table[k].1 == (if is_leaf(
        oracles[k.0 as int].variant,
    ) {
        leaf_proof(oracles[k.0 as int].variant)
    } else {
        assembled_from(oracles, table, k)
    }) by {
        let kids = child_keys(oracles, k);
        assert(children_finalized(oracles, table, k));
        if st.finalized.contains_key(k) {
            assert(children_finalized(oracles, st.finalized, k));
            lemma_assembled_from_same(oracles, st.finalized, table, k);
        } else {
            assert(pending_ok(oracles, st, none, k));
            let built = built_children(oracles, st, k);
            let from_table = Seq::new(kids.len(), |j: int| table[kids[j]]);
            assert forall|j: int| 0 <= j < kids.len() implies built[j] == from_table[j] by {
                lemma_child_keys_ok(oracles, k, j);
                assert(table.contains_key(kids[j]));
            }
            assert(built =~= from_table);
        }
    }
}

/// Whatever the verifier accepts, it hands on what the prover collected:
/// where the verifier's reduction of a claim along the proof that the
/// table holds for its key succeeds, it hands on the claims on committed,
/// shifted and packed oracles that the prover's walk from the claim
/// collects, in the same order. The two traversals agree whether the
/// claims are true or not.
pub proof fn lemma_accepted_leaves_are_collected<F: Field>(
    oracles: Seq<MultilinearPolyOracle<F>>,
    table: Map<ClaimKey<F>, (F, ProofSpec<F>)>,
    claim: ClaimSpec<F>,
)
    requires
        oracles_wf(oracles),
        finalized_inv(oracles, table),
        table_shaped(oracles, table),
        table.contains_key(claim.key()),
        verified(oracles, claim, table[claim.key()].1) is Ok,
    ensures
        same_leaves(
            verified(oracles, claim, table[claim.key()].1)->Ok_0,
            collect(oracles, table, claim),
        ),
    decreases claim.id, 1int, 0nat,
{
    let key = claim.key();
    let variant = oracles[claim.id as int].variant;
    if !is_leaf(variant) {
        lemma_accepted_children_are_collected(
            oracles,
            table,
            claim,
            child_keys(oracles, key).len(),
        );
        assert(child_claims(oracles, table, claim).len() == child_keys(oracles, key).len());
    }
}

/// What the verifier hands on for the first `n` children of a claim is
/// what the prover's walks from them collect.
pub proof fn lemma_accepted_children_are_collected<F: Field>(
    oracles: Seq<MultilinearPolyOracle<F>>,
    table: Map<ClaimKey<F>, (F, ProofSpec<F>)>,
    claim: ClaimSpec<F>,
    n: nat,
)
    requires
        oracles_wf(oracles),
        finalized_inv(oracles, table),
        table_shaped(oracles, table),
        table.contains_key(claim.key()),
        !is_leaf(oracles[claim.id as int].variant),
        n <= child_keys(oracles, claim.key()).len(),
        verified_children(oracles, claim, table[claim.key()].1, n) is Ok,
    ensures
        same_leaves(
            verified_children(oracles, claim, table[claim.key()].1, n)->Ok_0,
            collect_children(oracles, table, claim, n),
        ),
    decreases claim.id, 0int, n,
{
    let key = claim.key();
    let tree = table[key].1;
    let variant = oracles[claim.id as int].variant;
    let kids = child_keys(oracles, key);
    if n > 0 {
        lemma_accepted_children_are_collected(oracles, table, claim, (n - 1) as nat);
        assert(key_ok(oracles, key));
        assert(oracle_fits(oracles, claim.id as int));
        assert(children_finalized(oracles, table, key));
        lemma_child_keys_ok(oracles, key, n - 1);
        let from_table = Seq::new(kids.len(), |j: int| table[kids[j]]);
        assert(tree == assembled(variant, from_table));
        assert(from_table[n - 1] == table[kids[n - 1]]);
        assert(table.contains_key(kids[n - 1]));
        let child = child_claim(oracles, claim, tree, n - 1);
        let entries = child_entries(variant, claim.eval, tree);
        assert(entries[n - 1].1 == table[kids[n - 1]].1);
        assert(child == child_claims(oracles, table, claim)[n - 1]);
        lemma_accepted_leaves_are_collected(oracles, table, child);
    }
}

/// The proofs that `prove` returns let the verifier hand on what `prove`
/// has collected: for each claim of the batch that the verifier accepts
/// with its proof, the claims on committed, shifted and packed oracles
/// that the verifier hands on are those that the prover's walk from the
/// claim collects, in the same order. The proofs of the prover's table fit
/// their keys before the call, as they do in a prover that has seen no
/// claim, and they still do after it.
pub proof fn lemma_verifier_collects_the_same<F: Field>(
    before: EvalcheckProver<F>,
    after: EvalcheckProver<F>,
    claims: Seq<ClaimSpec<F>>,
    proofs: Vec<EvalcheckProof<F>>,
    i: int,
)
    requires
        before.inv(),
        table_shaped(before.oracles_spec(), before.state().finalized),
        claims_ok(before.oracles_spec(), claims),
        before.prove_post(&after, claims, Ok(proofs)),
        0 <= i < claims.len(),
        verified(before.oracles_spec(), claims[i], proofs@[i]@) is Ok,
    ensures
        same_leaves(
            verified(before.oracles_spec(), claims[i], proofs@[i]@)->Ok_0,
            collect(before.oracles_spec(), after.state().finalized, claims[i]),
        ),
        table_shaped(after.oracles_spec(), after.state().finalized),
{
    let oracles = before.oracles_spec();
    let columns = before.columns_spec();
    let st = before.state();
    let grown = after.oracles_spec();
    let none = Seq::<ClaimSpec<F>>::empty();
    before.lemma_inv_unfolds();
    after.lemma_inv_unfolds();
    let rest = choose|rest: ProverState<F>| #[trigger]
        reached(oracles, columns, st, claims, rest) && before.proved(
            &after,
            claims,
            rest,
            proofs_view(proofs@),
        );
    let seeded = seed(st, claims);
    lemma_seed_inv(oracles, st, claims);
    let n = choose|n: nat| #[trigger] run(oracles, columns, seeded, n) == Some(rest);
    lemma_run_shaped(oracles, columns, seeded, n);
    lemma_run_keeps_dedup(oracles, columns, seeded, n);
    lemma_complete_shaped(oracles, rest);
    let table = completed(oracles, rest);
    let key = claims[i].key();
    assert(claim_keys(claims)[i] == key);
    assert(claim_keys(claims).to_set().contains(key));
    assert(rest.dedup.contains(key));
    assert(accounted(rest, none, key));
    assert(proofs_view(proofs@).len() == proofs@.len());
    assert(proofs_of(table, claims).len() == claims.len());
    assert(proofs_view(proofs@)[i] == proofs_of(table, claims)[i]);
    assert(proofs@[i]@ == table[key].1);
    lemma_accepted_leaves_are_collected(oracles, table, claims[i]);
    let found = leaf_claims(oracles, rest, claims).bivariate;
    lemma_base_of_grows(oracles, found, 0, found.len());
    assert forall|k: ClaimKey<F>| #[trigger] table.contains_key(k) implies table[k].1 == (if is_leaf(
        grown[k.0 as int].variant,
    ) {
        leaf_proof(grown[k.0 as int].variant)
    } else {
        assembled_from(grown, table, k)
    }) by {
        lemma_extension_keeps_children(oracles, grown, k);
    }
}

} // verus!
