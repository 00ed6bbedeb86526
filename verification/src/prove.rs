use vstd::prelude::*;
use vstd::arithmetic::power2::pow2;
use rayon::iter::{IntoParallelRefIterator, ParallelIterator};
use crate::collection::{
    child_claims, collect, collect_all, collect_children, collect_stack, lemma_append_laws,
    lemma_collect_stack_push, Collected,
};
use crate::completion::{
    assembled_from, complete_all, completed, lemma_assembled_is_built, lemma_complete_all_inv,
    lemma_least_id, partly_completed,
};
use crate::error::{Error, WitnessError};
use crate::eval_point_map::EvalPointOracleIdMap;
use crate::evalcheck::{
    clone_point, ClaimKey, ClaimSpec, EvalcheckMultilinearClaim, EvalcheckProof, ProofSpec,
};
use crate::field::{invert, is_zero, Field};
use crate::measure::{
    claim_keys, keys_weight, lemma_children_weight, lemma_reduce_decreases, lemma_weight_positive,
    work,
};
use crate::multilinear::{evaluate, lemma_tensor_expansion_len};
use crate::oracle::{
    oracle_fits, oracles_wf, MultilinearOracleSet, MultilinearPolyOracle, OracleError, OracleId,
    OracleVariant, ProjectionVariant,
};
use crate::reduction::{
    accounted, child_keys, children_finalized, claim_ok, empty_state, extends, finalized_inv,
    in_claims, is_leaf, key_ok, lemma_child_keys_ok, lemma_extension_keeps_children,
    lemma_extension_keeps_inv, lemma_reduce_keeps_inv, pending_ok, projected_point, reduce,
    reduce_prefix, state_inv, ProverState,
};
use crate::rounds::{
    all_valued, drain, evaluation_base, evaluation_round, fails_after, first_unvalued, fresh_keys,
    lemma_fresh_keys, lemma_fresh_keys_weight, lemma_run_keeps_dedup, lemma_seed_inv,
    lemma_start_drain, lemma_start_evaluation, quiescent, reports_first_unvalued, run, seed, step,
    valued_claim, valued_claims,
};
use crate::subclaims::{
    add_bivariate_sumcheck_to_constraints, add_to_builders, added_count, added_ok, base_of,
    bivariate_inner, builders_after, builders_view, calculate_projected_mles, columns_extended,
    empty_builders, first_unprojectable, first_unready, high_point, is_bivariate, is_multiplier,
    is_projection, lemma_base_of_grows, meta_at, meta_column_fits, meta_of, meta_projectable,
    meta_ready, oracles_extended, packed_sumcheck_meta, projectable, projectable_one,
    projected_column, projected_mle_result, reports_first_unprojectable, shifted_sumcheck_meta,
    sumcheck_of, ProjectedBivariateMeta,
};
use crate::sumcheck::{
    sets_above, sets_view, BivariateSumcheck, ConstraintSet, ConstraintSetBuilder,
};
use crate::witness::{column_of, witness_fits, MemoizedQueries, MultilinearExtensionIndex};

verus! {

/// The finalized table with its proofs read as mathematical trees.
pub open spec fn finalized_view<F>(
    table: Map<ClaimKey<F>, (F, EvalcheckProof<F>)>,
) -> Map<ClaimKey<F>, (F, ProofSpec<F>)> {
    Map::new(|k: ClaimKey<F>| table.contains_key(k), |k: ClaimKey<F>| (table[k].0, table[k].1@))
}

/// The pending table with its claims read as mathematical claims.
pub open spec fn pending_view<F>(
    table: Map<ClaimKey<F>, EvalcheckMultilinearClaim<F>>,
) -> Map<ClaimKey<F>, ClaimSpec<F>> {
    Map::new(|k: ClaimKey<F>| table.contains_key(k), |k: ClaimKey<F>| table[k]@)
}

/// A list of claims read as mathematical claims.
pub open spec fn claims_view<F>(claims: Seq<EvalcheckMultilinearClaim<F>>) -> Seq<ClaimSpec<F>> {
    Seq::new(claims.len(), |i: int| claims[i]@)
}

/// A list of oracles and points read as keys.
pub open spec fn keys_view<F>(keys: Seq<(OracleId, Vec<F>)>) -> Seq<ClaimKey<F>> {
    Seq::new(keys.len(), |i: int| (keys[i].0, keys[i].1@))
}

/// What valuing a key from the witness returns: the claim that the
/// witness makes, `MissingQuery` where the point's tensor expansion is
/// not memoized, and else `MissingWitness` where the oracle has no column.
pub open spec fn eval_claim_result<F: Field>(
    columns: Seq<Option<Vec<F>>>,
    memoized: bool,
    key: ClaimKey<F>,
    r: Result<EvalcheckMultilinearClaim<F>, Error>,
) -> bool {
    match r {
        Ok(claim) => memoized && column_of(columns, key.0) is Some && claim@ == valued_claim(
            columns,
            key,
        ),
        Err(e) => if !memoized {
            e == Error::MissingQuery
        } else {
            column_of(columns, key.0) is None && e == Error::Witness(
                WitnessError::MissingWitness { id: key.0 },
            )
        },
    }
}

/// Whether the column of each key, where the witness holds one, has one
/// value for each vertex of the hypercube of the key's point.
pub open spec fn columns_match<F>(
    columns: Seq<Option<Vec<F>>>,
    keys: Seq<(OracleId, Vec<F>)>,
) -> bool {
    forall|i: int|
        0 <= i < keys.len() ==> (column_of(columns, (#[trigger] keys[i]).0) is Some ==> column_of(
            columns,
            keys[i].0,
        )->0.len() == pow2(keys[i].1@.len()))
}

/// A list of proofs read as mathematical trees.
pub open spec fn proofs_view<F>(proofs: Seq<EvalcheckProof<F>>) -> Seq<ProofSpec<F>> {
    Seq::new(proofs.len(), |i: int| proofs[i]@)
}

/// The proofs under which the claims are finalized, claim by claim.
pub open spec fn proofs_of<F>(
    table: Map<ClaimKey<F>, (F, ProofSpec<F>)>,
    claims: Seq<ClaimSpec<F>>,
) -> Seq<ProofSpec<F>> {
    Seq::new(claims.len(), |i: int| table[claims[i].key()].1)
}

/// Whether every claim names an oracle of the set at a point of its arity.
pub open spec fn claims_ok<F>(
    oracles: Seq<MultilinearPolyOracle<F>>,
    claims: Seq<ClaimSpec<F>>,
) -> bool {
    forall|i: int| 0 <= i < claims.len() ==> claim_ok(oracles, #[trigger] claims[i])
}

/// Whether the engine, started on the claims, comes to rest in `rest`.
pub open spec fn reached<F: Field>(
    oracles: Seq<MultilinearPolyOracle<F>>,
    columns: Seq<Option<Vec<F>>>,
    st: ProverState<F>,
    claims: Seq<ClaimSpec<F>>,
    rest: ProverState<F>,
) -> bool {
    quiescent(rest) && exists|n: nat| #[trigger]
        run(oracles, columns, seed(st, claims), n) == Some(rest)
}

/// What the collection phase finds for the claims once the engine has
/// come to rest in `rest` and every pending claim is completed.
pub open spec fn leaf_claims<F>(
    oracles: Seq<MultilinearPolyOracle<F>>,
    rest: ProverState<F>,
    claims: Seq<ClaimSpec<F>>,
) -> Collected<F> {
    collect_all(oracles, complete_all(oracles, rest).finalized, claims, claims.len())
}

/// The first `n` coordinates of a point.
pub fn prefix_point<F: Field>(point: &Vec<F>, n: usize) -> (r: Vec<F>)
    requires
        n <= point@.len(),
    ensures
        r@ == point@.take(n as int),
{
    let mut r: Vec<F> = Vec::new();
    let mut i: usize = 0;
    while i < n
        invariant
            i <= n <= point@.len(),
            r@ == point@.take(i as int),
        decreases n - i,
    {
        r.push(point[i]);
        assert(r@ =~= point@.take(i + 1));
        i += 1;
    }
    r
}

/// The point at which the inner polynomial of a projection is evaluated.
pub fn projected_eval_point<F: Field>(
    point: &Vec<F>,
    values: &Vec<F>,
    variant: ProjectionVariant,
) -> (r: Vec<F>)
    ensures
        r@ == projected_point(point@, values@, variant),
{
    let (first, second) = match variant {
        ProjectionVariant::FirstVars => (values, point),
        ProjectionVariant::LastVars => (point, values),
    };
    let mut r: Vec<F> = clone_point(first);
    let mut i: usize = 0;
    while i < second.len()
        invariant
            i <= second@.len(),
            r@ == first@ + second@.take(i as int),
        decreases second@.len() - i,
    {
        r.push(second[i]);
        assert(r@ =~= first@ + second@.take(i + 1));
        i += 1;
    }
    assert(second@.take(second@.len() as int) =~= second@);
    r
}

/// A mutable prover state.
///
/// Persists across [`EvalcheckProver::prove`] invocations. It accumulates
/// the claims on committed polynomials and the new bivariate sumcheck
/// instances, and owns the oracle set and the witness store, to which new
/// oracles and columns are added during proving.
pub struct EvalcheckProver<F> {
    oracles: MultilinearOracleSet<F>,
    witness_index: MultilinearExtensionIndex<F>,
    committed_eval_claims: Vec<EvalcheckMultilinearClaim<F>>,
    finalized_proofs: EvalPointOracleIdMap<(F, EvalcheckProof<F>), F>,
    claims_queue: Vec<EvalcheckMultilinearClaim<F>>,
    incomplete_proof_claims: EvalPointOracleIdMap<EvalcheckMultilinearClaim<F>, F>,
    incomplete_order: Vec<EvalcheckMultilinearClaim<F>>,
    claims_without_evals: Vec<(OracleId, Vec<F>)>,
    claims_without_evals_dedup: EvalPointOracleIdMap<(), F>,
    projected_bivariate_claims: Vec<EvalcheckMultilinearClaim<F>>,
    new_sumchecks_constraints: Vec<ConstraintSetBuilder<F>>,
    memoized_queries: MemoizedQueries<F>,
}

impl<F: Field> EvalcheckProver<F> {
    /// The oracles of the prover.
    pub closed spec fn oracles_spec(&self) -> Seq<MultilinearPolyOracle<F>> {
        self.oracles.oracles@
    }

    /// The witness columns of the prover.
    pub closed spec fn columns_spec(&self) -> Seq<Option<Vec<F>>> {
        self.witness_index.columns@
    }

    /// The bookkeeping of the prover.
    pub closed spec fn state(&self) -> ProverState<F> {
        ProverState {
            finalized: finalized_view(self.finalized_proofs@),
            pending: pending_view(self.incomplete_proof_claims@),
            queue: claims_view(self.claims_queue@),
            needs_eval: keys_view(self.claims_without_evals@),
            dedup: self.claims_without_evals_dedup@.dom(),
        }
    }

    /// The accumulated claims on committed polynomials.
    pub closed spec fn committed_spec(&self) -> Seq<ClaimSpec<F>> {
        claims_view(self.committed_eval_claims@)
    }

    /// The claims on shifted and packed polynomials that wait to become
    /// sumcheck instances.
    spec fn bivariate_spec(&self) -> Seq<ClaimSpec<F>> {
        claims_view(self.projected_bivariate_claims@)
    }

    /// The accumulated claims, those on committed polynomials and those
    /// that wait to become sumcheck instances.
    spec fn collected_spec(&self) -> Collected<F> {
        Collected { committed: self.committed_spec(), bivariate: self.bivariate_spec() }
    }

    /// The constraints of the builders of new sumcheck instances, by the
    /// number of variables.
    pub closed spec fn builders_spec(&self) -> Seq<Seq<BivariateSumcheck<F>>> {
        builders_view(self.new_sumchecks_constraints@)
    }

    /// The list of pending claims holds exactly the claims of the pending
    /// table.
    spec fn order_matches(&self) -> bool {
        &&& forall|i: int|
            0 <= i < self.incomplete_order@.len() ==> self.state().pending.contains_key(
                (#[trigger] self.incomplete_order@[i])@.key(),
            ) && self.state().pending[self.incomplete_order@[i]@.key()]
                == self.incomplete_order@[i]@
        &&& forall|k: ClaimKey<F>| #[trigger]
            self.state().pending.contains_key(k) ==> in_claims(
                claims_view(self.incomplete_order@),
                k,
            )
    }

    /// What the parts of the prover other than its bookkeeping satisfy.
    spec fn parts_wf(&self) -> bool {
        &&& self.oracles.wf()
        &&& witness_fits(self.oracles.oracles@, self.witness_index.columns@)
        &&& self.finalized_proofs.wf()
        &&& self.incomplete_proof_claims.wf()
        &&& self.claims_without_evals_dedup.wf()
        &&& self.memoized_queries.wf()
        &&& self.order_matches()
        &&& forall|i: int|
            0 <= i < self.committed_spec().len() ==> claim_ok(
                self.oracles_spec(),
                #[trigger] self.committed_spec()[i],
            )
        &&& forall|i: int|
            0 <= i < self.bivariate_spec().len() ==> claim_ok(
                self.oracles_spec(),
                #[trigger] self.bivariate_spec()[i],
            ) && is_bivariate(self.oracles_spec()[self.bivariate_spec()[i].id as int].variant)
    }

    /// The invariant of the prover while the claims of `flight` are taken
    /// out of the queue and about to be reduced.
    spec fn inv_flight(&self, flight: Seq<ClaimSpec<F>>) -> bool {
        self.parts_wf() && state_inv(self.oracles_spec(), self.state(), flight)
    }

    /// The invariant of the prover between two calls: the engine rests,
    /// nothing is pending, and no claim waits to become a sumcheck
    /// instance.
    pub closed spec fn inv(&self) -> bool {
        &&& self.inv_flight(Seq::empty())
        &&& quiescent(self.state())
        &&& self.state().pending == Map::<ClaimKey<F>, ClaimSpec<F>>::empty()
        &&& self.bivariate_spec().len() == 0
    }

    /// What the invariant of the prover says of its parts.
    pub proof fn lemma_inv_unfolds(&self)
        requires
            self.inv(),
        ensures
            oracles_wf(self.oracles_spec()),
            self.oracles_spec().len() <= usize::MAX,
            witness_fits(self.oracles_spec(), self.columns_spec()),
            state_inv(self.oracles_spec(), self.state(), Seq::empty()),
            quiescent(self.state()),
            self.state().pending == Map::<ClaimKey<F>, ClaimSpec<F>>::empty(),
            claims_ok(self.oracles_spec(), self.committed_spec()),
            self.builders_spec().len() <= usize::MAX,
    {
        assert(self.oracles.oracles.len() == self.oracles_spec().len());
        assert(self.new_sumchecks_constraints.len() == self.builders_spec().len());
    }

    /// Whether two provers hold the same oracles, witness, accumulated
    /// claims and sumcheck instances.
    spec fn same_outputs(&self, other: &Self) -> bool {
        &&& self.oracles == other.oracles
        &&& self.witness_index == other.witness_index
        &&& self.committed_eval_claims == other.committed_eval_claims
        &&& self.projected_bivariate_claims == other.projected_bivariate_claims
        &&& self.new_sumchecks_constraints == other.new_sumchecks_constraints
    }

    /// Whether two provers agree on all but the bookkeeping of the
    /// reduction.
    spec fn same_surroundings(&self, other: &Self) -> bool {
        self.same_outputs(other) && self.memoized_queries == other.memoized_queries
    }

    /// Whether two provers agree on all but the finalized table.
    spec fn same_but_finalized(&self, other: &Self) -> bool {
        &&& self.same_surroundings(other)
        &&& self.claims_queue == other.claims_queue
        &&& self.incomplete_proof_claims == other.incomplete_proof_claims
        &&& self.incomplete_order == other.incomplete_order
        &&& self.claims_without_evals == other.claims_without_evals
        &&& self.claims_without_evals_dedup == other.claims_without_evals_dedup
    }

    /// Whether two provers agree on all but the accumulated claims.
    spec fn same_but_collected(&self, other: &Self) -> bool {
        &&& self.oracles == other.oracles
        &&& self.witness_index == other.witness_index
        &&& self.new_sumchecks_constraints == other.new_sumchecks_constraints
        &&& self.memoized_queries == other.memoized_queries
        &&& self.finalized_proofs == other.finalized_proofs
        &&& self.claims_queue == other.claims_queue
        &&& self.incomplete_proof_claims == other.incomplete_proof_claims
        &&& self.incomplete_order == other.incomplete_order
        &&& self.claims_without_evals == other.claims_without_evals
        &&& self.claims_without_evals_dedup == other.claims_without_evals_dedup
    }

    /// Whether two provers agree on all but the oracles.
    spec fn same_but_oracles(&self, other: &Self) -> bool {
        &&& self.witness_index == other.witness_index
        &&& self.committed_eval_claims == other.committed_eval_claims
        &&& self.projected_bivariate_claims == other.projected_bivariate_claims
        &&& self.new_sumchecks_constraints == other.new_sumchecks_constraints
        &&& self.memoized_queries == other.memoized_queries
        &&& self.finalized_proofs == other.finalized_proofs
        &&& self.claims_queue == other.claims_queue
        &&& self.incomplete_proof_claims == other.incomplete_proof_claims
        &&& self.incomplete_order == other.incomplete_order
        &&& self.claims_without_evals == other.claims_without_evals
        &&& self.claims_without_evals_dedup == other.claims_without_evals_dedup
    }

    /// Whether two provers agree on all but the witness and the builders
    /// of new sumcheck instances.
    spec fn same_but_products(&self, other: &Self) -> bool {
        &&& self.oracles == other.oracles
        &&& self.committed_eval_claims == other.committed_eval_claims
        &&& self.projected_bivariate_claims == other.projected_bivariate_claims
        &&& self.memoized_queries == other.memoized_queries
        &&& self.finalized_proofs == other.finalized_proofs
        &&& self.claims_queue == other.claims_queue
        &&& self.incomplete_proof_claims == other.incomplete_proof_claims
        &&& self.incomplete_order == other.incomplete_order
        &&& self.claims_without_evals == other.claims_without_evals
        &&& self.claims_without_evals_dedup == other.claims_without_evals_dedup
    }

    /// What a successful call of `prove` leaves behind, where the engine
    /// came to rest in `rest`: every pending claim is completed; the proofs
    /// are those under which the claims are finalized; the claims that the
    /// collection phase found on committed oracles are appended to the
    /// accumulated ones; those it found on shifted and packed oracles have
    /// become sumcheck instances.
    pub open spec fn proved(
        &self,
        after: &Self,
        claims: Seq<ClaimSpec<F>>,
        rest: ProverState<F>,
        proofs: Seq<ProofSpec<F>>,
    ) -> bool {
        let oracles = self.oracles_spec();
        let columns = self.columns_spec();
        let found = leaf_claims(oracles, rest, claims);
        &&& after.state() == complete_all(oracles, rest)
        &&& proofs == proofs_of(complete_all(oracles, rest).finalized, claims)
        &&& after.committed_spec() == self.committed_spec() + found.committed
        &&& projectable(oracles, columns, found.bivariate)
        &&& oracles_extended(oracles, after.oracles_spec(), found.bivariate, found.bivariate.len())
        &&& columns_extended(
            oracles,
            columns,
            after.columns_spec(),
            found.bivariate,
            found.bivariate.len(),
        )
        &&& after.builders_spec() == builders_after(
            oracles,
            self.builders_spec(),
            found.bivariate,
            found.bivariate.len(),
        )
    }

    /// What a call of `prove` on `claims` owes. It succeeds where the
    /// witness holds a column for every key that the engine has to value
    /// and for the inner oracle of every claim that has to be projected,
    /// and fails with `MissingWitness` for the first that lacks one.
    pub open spec fn prove_post(
        &self,
        after: &Self,
        claims: Seq<ClaimSpec<F>>,
        r: Result<Vec<EvalcheckProof<F>>, Error>,
    ) -> bool {
        let oracles = self.oracles_spec();
        let columns = self.columns_spec();
        match r {
            Ok(proofs) => after.inv() && exists|rest: ProverState<F>| #[trigger]
                reached(oracles, columns, self.state(), claims, rest) && self.proved(
                    after,
                    claims,
                    rest,
                    proofs_view(proofs@),
                ),
            Err(e) => (exists|n: nat| #[trigger]
                fails_after(oracles, columns, seed(self.state(), claims), n, e)) || (exists|
                rest: ProverState<F>,
            | #[trigger]
                reached(oracles, columns, self.state(), claims, rest)
                    && reports_first_unprojectable(
                    oracles,
                    columns,
                    leaf_claims(oracles, rest, claims).bivariate,
                    e,
                )),
        }
    }

    /// Create a new prover state by tying together the oracle set and the
    /// witness index, to both of which the reduction to sumcheck instances
    /// may add, along with an empty accumulator of claims on committed
    /// polynomials.
    pub fn new(oracles: MultilinearOracleSet<F>, witness_index: MultilinearExtensionIndex<F>) -> (prover:
        Self)
        requires
            oracles.wf(),
            witness_fits(oracles.oracles@, witness_index.columns@),
        ensures
            prover.inv(),
            prover.oracles_spec() == oracles.oracles@,
            prover.columns_spec() == witness_index.columns@,
            prover.state() == empty_state::<F>(),
            prover.committed_spec() == Seq::<ClaimSpec<F>>::empty(),
            prover.builders_spec() == Seq::<Seq<BivariateSumcheck<F>>>::empty(),
    {
        let prover = EvalcheckProver {
            oracles,
            witness_index,
            committed_eval_claims: Vec::new(),
            finalized_proofs: EvalPointOracleIdMap::new(),
            claims_queue: Vec::new(),
            incomplete_proof_claims: EvalPointOracleIdMap::new(),
            incomplete_order: Vec::new(),
            claims_without_evals: Vec::new(),
            claims_without_evals_dedup: EvalPointOracleIdMap::new(),
            projected_bivariate_claims: Vec::new(),
            new_sumchecks_constraints: Vec::new(),
            memoized_queries: MemoizedQueries::new(),
        };
        proof {
            let st = prover.state();
            assert(st.finalized =~= Map::empty());
            assert(st.pending =~= Map::empty());
            assert(st.queue =~= Seq::empty());
            assert(st.needs_eval =~= Seq::empty());
            assert(st.dedup =~= Set::empty());
            assert(prover.committed_spec() =~= Seq::empty());
            assert(prover.bivariate_spec() =~= Seq::empty());
            assert(prover.builders_spec() =~= Seq::empty());
        }
        prover
    }

    /// The oracles of the prover.
    pub fn oracles(&self) -> (oracles: &MultilinearOracleSet<F>)
        ensures
            oracles.oracles@ == self.oracles_spec(),
    {
        &self.oracles
    }

    /// The witness store of the prover.
    pub fn witness_index(&self) -> (witness_index: &MultilinearExtensionIndex<F>)
        ensures
            witness_index.columns@ == self.columns_spec(),
    {
        &self.witness_index
    }

    /// The accumulated claims on committed polynomials.
    pub fn committed_eval_claims(&self) -> (claims: &Vec<EvalcheckMultilinearClaim<F>>)
        ensures
            claims_view(claims@) == self.committed_spec(),
    {
        &self.committed_eval_claims
    }

    /// Moves the accumulated claims on committed polynomials out; the
    /// prover starts to accumulate afresh.
    pub fn take_committed_eval_claims(&mut self) -> (claims: Vec<EvalcheckMultilinearClaim<F>>)
        requires
            old(self).inv(),
        ensures
            final(self).inv(),
            claims_view(claims@) == old(self).committed_spec(),
            final(self).committed_spec() == Seq::<ClaimSpec<F>>::empty(),
            final(self).state() == old(self).state(),
            final(self).oracles_spec() == old(self).oracles_spec(),
            final(self).columns_spec() == old(self).columns_spec(),
            final(self).builders_spec() == old(self).builders_spec(),
    {
        let mut claims: Vec<EvalcheckMultilinearClaim<F>> = Vec::new();
        core::mem::swap(&mut claims, &mut self.committed_eval_claims);
        proof {
            assert(self.committed_spec() =~= Seq::empty());
            assert(self.state() == old(self).state());
            assert(self.order_matches());
            assert(self.bivariate_spec() == old(self).bivariate_spec());
        }
        claims
    }

    /// Gives the oracle set and the witness store back.
    pub fn into_parts(self) -> (parts: (MultilinearOracleSet<F>, MultilinearExtensionIndex<F>))
        requires
            self.inv(),
        ensures
            parts.0.wf(),
            witness_fits(parts.0.oracles@, parts.1.columns@),
            parts.0.oracles@ == self.oracles_spec(),
            parts.1.columns@ == self.columns_spec(),
    {
        (self.oracles, self.witness_index)
    }

    /// Whether the prover accepts the claims: each of them names an oracle
    /// of the set at a point of its arity.
    pub fn accepts(&self, evalcheck_claims: &Vec<EvalcheckMultilinearClaim<F>>) -> (ok: bool)
        ensures
            ok == claims_ok(self.oracles_spec(), claims_view(evalcheck_claims@)),
    {
        let mut i: usize = 0;
        while i < evalcheck_claims.len()
            invariant
                i <= evalcheck_claims@.len(),
                forall|k: int|
                    0 <= k < i ==> claim_ok(
                        self.oracles_spec(),
                        #[trigger] claims_view(evalcheck_claims@)[k],
                    ),
            decreases evalcheck_claims@.len() - i,
        {
            let claim = &evalcheck_claims[i];
            if claim.id >= self.oracles.size() || claim.eval_point.len() != self.oracles.n_vars(
                claim.id,
            ) {
                assert(!claim_ok(self.oracles_spec(), claims_view(evalcheck_claims@)[i as int]));
                return false;
            }
            i += 1;
        }
        true
    }

    /// A helper method to move out sumcheck constraints: the constraint
    /// sets of the arities for which there are new sumcheck instances, the
    /// highest arity first. No instance is left behind.
    pub fn take_new_sumchecks_constraints(&mut self) -> (r: Result<
        Vec<ConstraintSet<F>>,
        OracleError,
    >)
        requires
            old(self).inv(),
        ensures
            final(self).inv(),
            r is Ok,
            sets_view(r->Ok_0@) == sets_above(old(self).builders_spec(), 0),
            final(self).builders_spec() == empty_builders::<F>(old(self).builders_spec().len()),
            final(self).state() == old(self).state(),
            final(self).oracles_spec() == old(self).oracles_spec(),
            final(self).columns_spec() == old(self).columns_spec(),
            final(self).committed_spec() == old(self).committed_spec(),
    {
        let ghost builders = self.builders_spec();
        let mut sets: Vec<ConstraintSet<F>> = Vec::new();
        let mut j: usize = self.new_sumchecks_constraints.len();
        while j > 0
            invariant
                j <= self.new_sumchecks_constraints@.len(),
                builders.len() == self.new_sumchecks_constraints@.len(),
                builders == old(self).builders_spec(),
                forall|k: int| 0 <= k < j ==> self.builders_spec()[k] == builders[k],
                forall|k: int|
                    j <= k < builders.len() ==> (#[trigger] self.builders_spec()[k]).len() == 0,
                sets_view(sets@) == sets_above(builders, j as nat),
                self.oracles == old(self).oracles,
                self.witness_index == old(self).witness_index,
                self.committed_eval_claims == old(self).committed_eval_claims,
                self.projected_bivariate_claims == old(self).projected_bivariate_claims,
                self.memoized_queries == old(self).memoized_queries,
                self.finalized_proofs == old(self).finalized_proofs,
                self.claims_queue == old(self).claims_queue,
                self.incomplete_proof_claims == old(self).incomplete_proof_claims,
                self.incomplete_order == old(self).incomplete_order,
                self.claims_without_evals == old(self).claims_without_evals,
                self.claims_without_evals_dedup == old(self).claims_without_evals_dedup,
            decreases j,
        {
            j -= 1;
            let ghost before = self.new_sumchecks_constraints@;
            let ghost prior = sets@;
            let mut constraints: Vec<BivariateSumcheck<F>> = Vec::new();
            core::mem::swap(&mut constraints, &mut self.new_sumchecks_constraints[j].constraints);
            proof {
                assert(constraints@ == builders[j as int]);
                assert(forall|k: int|
                    0 <= k < before.len() && k != j ==> self.new_sumchecks_constraints@[k]
                        == before[k]);
                assert forall|k: int| 0 <= k < j implies self.builders_spec()[k] == builders[k] by {
                    assert(self.new_sumchecks_constraints@[k] == before[k]);
                    assert(builders_view(before)[k] == builders[k]);
                }
                assert forall|k: int| j <= k < builders.len() implies (
                #[trigger] self.builders_spec()[k]).len() == 0 by {
                    if k > j {
                        assert(self.new_sumchecks_constraints@[k] == before[k]);
                        assert(builders_view(before)[k].len() == 0);
                    }
                }
            }
            if constraints.len() > 0 {
                sets.push(ConstraintSet { n_vars: j, constraints });
                assert(sets_view(sets@) =~= sets_view(prior).push((j, builders[j as int])));
            }
        }
        proof {
            assert(self.builders_spec() =~~= empty_builders::<F>(builders.len()));
            assert(self.state() == old(self).state());
            assert(self.order_matches());
            assert(self.committed_spec() == old(self).committed_spec());
            assert(self.bivariate_spec() == old(self).bivariate_spec());
        }
        Ok(sets)
    }

    /// Prove a batch of evalcheck claims.
    ///
    /// Each claim, stating that an oracle evaluates to a value at a point,
    /// is reduced along the structure of its oracle. This yields one proof
    /// per claim, in the order of the claims, and new claims of two kinds:
    /// claims on committed polynomials, which are appended to the
    /// accumulated ones, and sumcheck instances to be proven in a later
    /// round, which join the builders. Each instance is a product of two
    /// multilinears: a transparent multiplier and a projection of one of
    /// the claims' polynomials onto its first variables.
    pub fn prove(&mut self, evalcheck_claims: Vec<EvalcheckMultilinearClaim<F>>) -> (r: Result<
        Vec<EvalcheckProof<F>>,
        Error,
    >)
        requires
            old(self).inv(),
            claims_ok(old(self).oracles_spec(), claims_view(evalcheck_claims@)),
        ensures
            old(self).prove_post(final(self), claims_view(evalcheck_claims@), r),
    {
        let ghost oracles = self.oracles_spec();
        let ghost columns = self.columns_spec();
        let ghost start = self.state();
        let ghost claims = claims_view(evalcheck_claims@);
        let ghost seeded = seed(start, claims);
        self.seed_claims(&evalcheck_claims);
        match self.reduce_to_fixpoint() {
            Ok(()) => {},
            Err(e) => {
                return Err(e);
            },
        }
        let ghost rest = self.state();
        let ghost steps = choose|n: nat| run(oracles, columns, seeded, n) == Some(rest);
        proof {
            assert(run(oracles, columns, seeded, steps) == Some(rest));
            assert(reached(oracles, columns, start, claims, rest));
            lemma_run_keeps_dedup(oracles, columns, seeded, steps);
        }
        self.complete_proofs();
        let ghost done = self.state();
        proof {
            assert forall|i: int| 0 <= i < claims.len() implies done.finalized.contains_key(
                (#[trigger] claims[i]).key(),
            ) by {
                let key = claims[i].key();
                assert(claim_keys(claims)[i] == key);
                assert(claim_keys(claims).to_set().contains(key));
                assert(seeded.dedup.contains(key));
                assert(rest.dedup.contains(key));
                assert(accounted(rest, Seq::empty(), key));
            }
        }
        self.collect_claims(&evalcheck_claims);
        proof {
            assert(self.state() == done);
            let found = leaf_claims(oracles, rest, claims);
            assert(self.bivariate_spec() =~= found.bivariate);
            assert(self.committed_spec() == old(self).committed_spec() + found.committed);
        }
        match self.materialize() {
            Ok(()) => {},
            Err(e) => {
                return Err(e);
            },
        }
        let proofs = self.finalized_proofs_of(&evalcheck_claims);
        proof {
            assert(self.state() == done);
            assert(old(self).proved(self, claims, rest, proofs_view(proofs@)));
        }
        Ok(proofs)
    }

    /// Submits a batch of claims: the dedup set learns their keys, and
    /// copies of them join the queue.
    fn seed_claims(&mut self, evalcheck_claims: &Vec<EvalcheckMultilinearClaim<F>>)
        requires
            old(self).inv_flight(Seq::empty()),
            claims_ok(old(self).oracles_spec(), claims_view(evalcheck_claims@)),
        ensures
            final(self).state() == seed(old(self).state(), claims_view(evalcheck_claims@)),
            final(self).inv_flight(Seq::empty()),
            final(self).same_surroundings(old(self)),
    {
        let ghost st = self.state();
        let ghost claims = claims_view(evalcheck_claims@);
        let ghost keys = claim_keys(claims);
        proof {
            assert(keys.take(0) =~= Seq::empty());
            assert(self.state().dedup =~= st.dedup.union(keys.take(0).to_set()));
            assert(claims.take(0) =~= Seq::empty());
            assert(self.state().queue =~= st.queue + claims.take(0));
        }
        let mut i: usize = 0;
        while i < evalcheck_claims.len()
            invariant
                i <= evalcheck_claims@.len(),
                claims == claims_view(evalcheck_claims@),
                keys == claim_keys(claims),
                st == old(self).state(),
                self.claims_without_evals_dedup.wf(),
                self.same_surroundings(old(self)),
                self.finalized_proofs == old(self).finalized_proofs,
                self.incomplete_proof_claims == old(self).incomplete_proof_claims,
                self.incomplete_order == old(self).incomplete_order,
                self.claims_without_evals == old(self).claims_without_evals,
                self.claims_queue == old(self).claims_queue,
                self.state().dedup == st.dedup.union(keys.take(i as int).to_set()),
            decreases evalcheck_claims@.len() - i,
        {
            let claim = &evalcheck_claims[i];
            self.claims_without_evals_dedup.insert(claim.id, clone_point(&claim.eval_point), ());
            proof {
                let key = claims[i as int].key();
                assert(keys.take(i + 1) =~= keys.take(i as int).push(key));
                keys.take(i as int).lemma_push_to_set_commute(key);
                assert(self.state().dedup =~= st.dedup.union(keys.take(i + 1).to_set()));
            }
            i += 1;
        }
        assert(keys.take(evalcheck_claims@.len() as int) =~= keys);
        let mut j: usize = 0;
        while j < evalcheck_claims.len()
            invariant
                j <= evalcheck_claims@.len(),
                claims == claims_view(evalcheck_claims@),
                keys == claim_keys(claims),
                st == old(self).state(),
                self.same_surroundings(old(self)),
                self.finalized_proofs == old(self).finalized_proofs,
                self.incomplete_proof_claims == old(self).incomplete_proof_claims,
                self.incomplete_order == old(self).incomplete_order,
                self.state().needs_eval == st.needs_eval,
                self.claims_without_evals_dedup.wf(),
                self.state().dedup == st.dedup.union(keys.to_set()),
                self.state().queue == st.queue + claims.take(j as int),
            decreases evalcheck_claims@.len() - j,
        {
            let ghost before = self.state();
            self.enqueue(evalcheck_claims[j].duplicate());
            proof {
                assert(claims.take(j + 1) =~= claims.take(j as int).push(claims[j as int]));
                assert(self.state().queue =~= st.queue + claims.take(j + 1));
            }
            j += 1;
        }
        proof {
            assert(keys.take(evalcheck_claims@.len() as int) =~= keys);
            assert(claims.take(evalcheck_claims@.len() as int) =~= claims);
            assert(self.state() == seed(st, claims));
            lemma_seed_inv(self.oracles_spec(), st, claims);
            assert(self.state().pending == st.pending);
            assert(self.order_matches());
            assert(self.committed_spec() == old(self).committed_spec());
            assert(self.bivariate_spec() == old(self).bivariate_spec());
            assert(self.parts_wf());
        }
    }

    /// Files a claim as finalized.
    fn finalize(&mut self, id: OracleId, eval_point: Vec<F>, eval: F, proof: EvalcheckProof<F>)
        requires
            old(self).finalized_proofs.wf(),
            !old(self).state().finalized.contains_key((id, eval_point@)),
        ensures
            final(self).finalized_proofs.wf(),
            final(self).state() == (ProverState {
                finalized: old(self).state().finalized.insert((id, eval_point@), (eval, proof@)),
                ..old(self).state()
            }),
            final(self).same_surroundings(old(self)),
            final(self).incomplete_order == old(self).incomplete_order,
            final(self).incomplete_proof_claims == old(self).incomplete_proof_claims,
            final(self).claims_without_evals_dedup == old(self).claims_without_evals_dedup,
    {
        let ghost key: ClaimKey<F> = (id, eval_point@);
        let ghost entry = (eval, proof@);
        self.finalized_proofs.insert(id, eval_point, (eval, proof));
        assert(self.state().finalized =~= old(self).state().finalized.insert(key, entry));
    }

    /// Files a claim as pending.
    fn defer(&mut self, claim: &EvalcheckMultilinearClaim<F>)
        requires
            old(self).incomplete_proof_claims.wf(),
            old(self).order_matches(),
            !old(self).state().pending.contains_key(claim@.key()),
        ensures
            final(self).incomplete_proof_claims.wf(),
            final(self).order_matches(),
            final(self).state() == (ProverState {
                pending: old(self).state().pending.insert(claim@.key(), claim@),
                ..old(self).state()
            }),
            final(self).same_surroundings(old(self)),
            final(self).finalized_proofs == old(self).finalized_proofs,
            final(self).claims_without_evals_dedup == old(self).claims_without_evals_dedup,
    {
        let filed = claim.duplicate();
        let listed = claim.duplicate();
        let ghost before = *self;
        self.incomplete_proof_claims.insert(claim.id, clone_point(&claim.eval_point), filed);
        self.incomplete_order.push(listed);
        proof {
            let key = claim@.key();
            assert(self.state().pending =~= before.state().pending.insert(key, claim@));
            assert forall|i: int| 0 <= i < self.incomplete_order@.len() implies self.state().pending.contains_key(
                (#[trigger] self.incomplete_order@[i])@.key(),
            ) && self.state().pending[self.incomplete_order@[i]@.key()]
                == self.incomplete_order@[i]@ by {
                if i < before.incomplete_order@.len() {
                    assert(self.incomplete_order@[i] == before.incomplete_order@[i]);
                    assert(before.state().pending.contains_key(before.incomplete_order@[i]@.key()));
                }
            }
            assert forall|k: ClaimKey<F>| #[trigger]
                self.state().pending.contains_key(k) implies in_claims(
                claims_view(self.incomplete_order@),
                k,
            ) by {
                if k == key {
                    assert(claims_view(self.incomplete_order@)[before.incomplete_order@.len() as int].key()
                        == k);
                } else {
                    assert(before.state().pending.contains_key(k));
                    let i = choose|i: int|
                        0 <= i < before.incomplete_order@.len() && (#[trigger] claims_view(
                            before.incomplete_order@,
                        )[i]).key() == k;
                    assert(claims_view(self.incomplete_order@)[i].key() == k);
                }
            }
        }
    }

    /// Appends a claim to the queue.
    fn enqueue(&mut self, claim: EvalcheckMultilinearClaim<F>)
        ensures
            final(self).state() == (ProverState {
                queue: old(self).state().queue.push(claim@),
                ..old(self).state()
            }),
            final(self).same_surroundings(old(self)),
            final(self).finalized_proofs == old(self).finalized_proofs,
            final(self).incomplete_proof_claims == old(self).incomplete_proof_claims,
            final(self).incomplete_order == old(self).incomplete_order,
            final(self).claims_without_evals_dedup == old(self).claims_without_evals_dedup,
    {
        self.claims_queue.push(claim);
        assert(self.state().queue =~= old(self).state().queue.push(claim@));
    }

    /// Reduces one claim by the rule of its oracle's kind.
    ///
    /// A claim about a leaf is finalized. A claim about a repeating or
    /// projected oracle, or about a linear combination of one polynomial
    /// with a nonzero coefficient, is rewritten into one child claim that
    /// joins the queue. The children of any other claim wait for a value
    /// from the witness. In all but the first case the claim becomes
    /// pending.
    fn prove_multilinear(
        &mut self,
        evalcheck_claim: EvalcheckMultilinearClaim<F>,
        Ghost(rest): Ghost<Seq<ClaimSpec<F>>>,
    )
        requires
            old(self).inv_flight(seq![evalcheck_claim@] + rest),
        ensures
            final(self).state() == reduce(
                old(self).oracles_spec(),
                old(self).state(),
                evalcheck_claim@,
            ),
            final(self).inv_flight(rest),
            final(self).same_surroundings(old(self)),
    {
        let ghost flight = seq![evalcheck_claim@] + rest;
        let ghost oracles = self.oracles_spec();
        let ghost st = self.state();
        let ghost key = evalcheck_claim@.key();
        proof {
            assert(flight[0] == evalcheck_claim@);
            assert(flight.drop_first() =~= rest);
            assert(claim_ok(oracles, flight[0]));
            lemma_reduce_keeps_inv(oracles, st, flight);
        }
        let id = evalcheck_claim.id;
        if self.finalized_proofs.contains(id, &evalcheck_claim.eval_point) {
            return ;
        }
        if self.incomplete_proof_claims.contains(id, &evalcheck_claim.eval_point) {
            return ;
        }
        let eval = evalcheck_claim.eval;
        match &self.oracles.oracle(id).variant {
            OracleVariant::Committed => {
                self.finalize(id, evalcheck_claim.eval_point, eval, EvalcheckProof::Committed);
            },
            OracleVariant::Transparent { .. } => {
                self.finalize(id, evalcheck_claim.eval_point, eval, EvalcheckProof::Transparent);
            },
            OracleVariant::Shifted { .. } => {
                self.finalize(id, evalcheck_claim.eval_point, eval, EvalcheckProof::Shifted);
            },
            OracleVariant::Packed { .. } => {
                self.finalize(id, evalcheck_claim.eval_point, eval, EvalcheckProof::Packed);
            },
            OracleVariant::Repeating { inner, .. } => {
                let inner = *inner;
                proof {
                    lemma_child_keys_ok(oracles, key, 0);
                    assert(oracle_fits(oracles, id as int));
                }
                let n_vars = self.oracles.n_vars(inner);
                let subclaim = EvalcheckMultilinearClaim {
                    id: inner,
                    eval_point: prefix_point(&evalcheck_claim.eval_point, n_vars),
                    eval,
                };
                self.defer(&evalcheck_claim);
                self.enqueue(subclaim);
            },
            OracleVariant::Projected { inner, values, variant } => {
                let subclaim = EvalcheckMultilinearClaim {
                    id: *inner,
                    eval_point: projected_eval_point(&evalcheck_claim.eval_point, values, *variant),
                    eval,
                };
                self.defer(&evalcheck_claim);
                self.enqueue(subclaim);
            },
            OracleVariant::LinearCombination { offset, terms } => {
                if terms.len() == 1 && !is_zero(&terms[0].1) {
                    let inverse = match invert(terms[0].1) {
                        Some(inverse) => inverse,
                        None => F::zero_value(),
                    };
                    let subclaim = EvalcheckMultilinearClaim {
                        id: terms[0].0,
                        eval_point: clone_point(&evalcheck_claim.eval_point),
                        eval: eval.sub(*offset).mul(inverse),
                    };
                    self.defer(&evalcheck_claim);
                    self.enqueue(subclaim);
                } else {
                    let mut j: usize = 0;
                    while j < terms.len()
                        invariant
                            j <= terms@.len(),
                            self.same_surroundings(old(self)),
                            self.finalized_proofs == old(self).finalized_proofs,
                            self.incomplete_proof_claims == old(self).incomplete_proof_claims,
                            self.incomplete_order == old(self).incomplete_order,
                            self.claims_without_evals_dedup == old(self).claims_without_evals_dedup,
                            self.claims_queue == old(self).claims_queue,
                            keys_view(self.claims_without_evals@) == st.needs_eval + child_keys(
                                oracles,
                                key,
                            ).take(j as int),
                            child_keys(oracles, key) == Seq::new(
                                terms@.len(),
                                |j: int| (terms@[j].0, key.1),
                            ),
                            st == old(self).state(),
                            key == evalcheck_claim@.key(),
                        decreases terms@.len() - j,
                    {
                        let ghost before = self.claims_without_evals@;
                        let point = clone_point(&evalcheck_claim.eval_point);
                        let term_id = terms[j].0;
                        self.claims_without_evals.push((term_id, point));
                        proof {
                            let kids = child_keys(oracles, key);
                            assert(self.claims_without_evals@ == before.push((term_id, point)));
                            assert(kids[j as int] == (term_id, point@));
                            assert(keys_view(self.claims_without_evals@) =~= keys_view(before).push(
                                (term_id, point@),
                            ));
                            assert(kids.take(j + 1) =~= kids.take(j as int).push(kids[j as int]));
                        }
                        assert(keys_view(self.claims_without_evals@) =~= st.needs_eval + child_keys(
                            oracles,
                            key,
                        ).take(j + 1));
                        j += 1;
                    }
                    assert(child_keys(oracles, key).take(terms@.len() as int) =~= child_keys(
                        oracles,
                        key,
                    ));
                    assert(self.state() == (ProverState {
                        needs_eval: st.needs_eval + child_keys(oracles, key),
                        ..st
                    }));
                    self.defer(&evalcheck_claim);
                }
            },
            OracleVariant::ZeroPadded { inner } => {
                let inner = *inner;
                proof {
                    lemma_child_keys_ok(oracles, key, 0);
                    assert(oracle_fits(oracles, id as int));
                }
                let inner_n_vars = self.oracles.n_vars(inner);
                let inner_eval_point = prefix_point(&evalcheck_claim.eval_point, inner_n_vars);
                let ghost inner_key: ClaimKey<F> = (inner, inner_eval_point@);
                self.claims_without_evals.push((inner, inner_eval_point));
                assert(keys_view(self.claims_without_evals@) =~= st.needs_eval + seq![inner_key]);
                assert(child_keys(oracles, key) =~= seq![inner_key]);
                assert(self.state() == (ProverState {
                    needs_eval: st.needs_eval + child_keys(oracles, key),
                    ..st
                }));
                self.defer(&evalcheck_claim);
            },
        }
        proof {
            assert(self.state() == reduce(oracles, st, evalcheck_claim@));
            assert(self.committed_spec() == old(self).committed_spec());
            assert(self.bivariate_spec() == old(self).bivariate_spec());
        }
    }

    /// Reduces the claims of a batch in order.
    fn reduce_batch(&mut self, batch: Vec<EvalcheckMultilinearClaim<F>>)
        requires
            old(self).inv_flight(claims_view(batch@)),
        ensures
            final(self).state() == reduce_prefix(
                old(self).oracles_spec(),
                old(self).state(),
                claims_view(batch@),
                batch@.len(),
            ),
            final(self).inv_flight(Seq::empty()),
            final(self).same_surroundings(old(self)),
            work(final(self).oracles_spec(), final(self).state()) + batch@.len() <= work(
                old(self).oracles_spec(),
                old(self).state(),
            ) + keys_weight(old(self).oracles_spec(), claim_keys(claims_view(batch@))),
    {
        let ghost oracles = self.oracles_spec();
        let ghost base = self.state();
        let ghost claims = claims_view(batch@);
        proof {
            assert(claims.skip(0) =~= claims);
            assert(claim_keys(claims).take(0) =~= Seq::empty());
        }
        let mut i: usize = 0;
        while i < batch.len()
            invariant
                i <= batch@.len(),
                claims == claims_view(batch@),
                oracles == self.oracles_spec(),
                oracles_wf(oracles),
                self.state() == reduce_prefix(oracles, base, claims, i as nat),
                self.inv_flight(claims.skip(i as int)),
                self.same_surroundings(old(self)),
                work(oracles, self.state()) + i <= work(oracles, base) + keys_weight(
                    oracles,
                    claim_keys(claims).take(i as int),
                ),
            decreases batch@.len() - i,
        {
            let claim = batch[i].duplicate();
            proof {
                assert(seq![claim@] + claims.skip(i + 1) =~= claims.skip(i as int));
                assert(claims.skip(i as int)[0] == claim@);
                assert(claim_ok(oracles, claim@));
                lemma_reduce_decreases(oracles, self.state(), claim@);
                let keys = claim_keys(claims);
                assert(keys.take(i + 1).drop_last() =~= keys.take(i as int));
                assert(keys.take(i + 1).last() == claim@.key());
            }
            self.prove_multilinear(claim, Ghost(claims.skip(i + 1)));
            i += 1;
        }
        proof {
            assert(claims.skip(batch@.len() as int) =~= Seq::empty());
            assert(claim_keys(claims).take(batch@.len() as int) =~= claim_keys(claims));
        }
    }

    /// Takes the whole queue out and reduces its claims in order. The
    /// claims that this produces form the new queue.
    fn drain_queue(&mut self)
        requires
            old(self).inv_flight(Seq::empty()),
        ensures
            final(self).state() == drain(old(self).oracles_spec(), old(self).state()),
            final(self).inv_flight(Seq::empty()),
            final(self).same_surroundings(old(self)),
            work(final(self).oracles_spec(), final(self).state()) + old(self).state().queue.len()
                <= work(old(self).oracles_spec(), old(self).state()),
    {
        let ghost oracles = self.oracles_spec();
        let ghost st = self.state();
        let ghost base = ProverState { queue: Seq::empty(), ..st };
        let mut batch: Vec<EvalcheckMultilinearClaim<F>> = Vec::new();
        core::mem::swap(&mut batch, &mut self.claims_queue);
        proof {
            lemma_start_drain(oracles, st);
            assert(self.state().queue =~= base.queue);
            assert(self.state() == base);
            assert(claims_view(batch@) == st.queue);
            assert(self.order_matches());
            assert(self.committed_spec() == old(self).committed_spec());
            assert(self.bivariate_spec() == old(self).bivariate_spec());
            assert(self.parts_wf());
            assert(claim_keys(base.queue) =~= Seq::empty());
        }
        self.reduce_batch(batch);
    }

    /// Takes out the keys that wait for a value and keeps those that are
    /// neither finalized nor known to the dedup set, which learns them.
    fn take_fresh_keys(&mut self) -> (fresh: Vec<(OracleId, Vec<F>)>)
        requires
            old(self).inv_flight(Seq::empty()),
        ensures
            keys_view(fresh@) == fresh_keys(
                old(self).state(),
                old(self).state().needs_eval.len(),
            ),
            final(self).state() == evaluation_base(old(self).state()),
            final(self).parts_wf(),
            final(self).same_surroundings(old(self)),
    {
        let ghost st = self.state();
        let mut needs: Vec<(OracleId, Vec<F>)> = Vec::new();
        core::mem::swap(&mut needs, &mut self.claims_without_evals);
        let mut fresh: Vec<(OracleId, Vec<F>)> = Vec::new();
        proof {
            assert(keys_view(needs@) == st.needs_eval);
            assert(self.state().pending == st.pending);
            assert(self.order_matches());
            assert(self.committed_spec() == old(self).committed_spec());
            assert(self.bivariate_spec() == old(self).bivariate_spec());
            assert(self.claims_without_evals_dedup@.dom() =~= st.dedup.union(
                fresh_keys(st, 0).to_set(),
            ));
        }
        let mut i: usize = 0;
        while i < needs.len()
            invariant
                i <= needs@.len(),
                keys_view(needs@) == st.needs_eval,
                st == old(self).state(),
                keys_view(fresh@) == fresh_keys(st, i as nat),
                self.claims_without_evals@.len() == 0,
                self.claims_without_evals_dedup.wf(),
                self.claims_without_evals_dedup@.dom() == st.dedup.union(
                    fresh_keys(st, i as nat).to_set(),
                ),
                self.finalized_proofs == old(self).finalized_proofs,
                self.finalized_proofs.wf(),
                self.incomplete_proof_claims == old(self).incomplete_proof_claims,
                self.incomplete_order == old(self).incomplete_order,
                self.claims_queue == old(self).claims_queue,
                self.same_surroundings(old(self)),
            decreases needs@.len() - i,
        {
            let id = needs[i].0;
            let ghost key: ClaimKey<F> = (id, needs@[i as int].1@);
            let ghost prev = fresh_keys(st, i as nat);
            assert(key == st.needs_eval[i as int]);
            if self.finalized_proofs.contains(id, &needs[i].1) {
            } else if self.claims_without_evals_dedup.contains(id, &needs[i].1) {
                assert(st.dedup.contains(key) || prev.to_set().contains(key));
            } else {
                assert(!prev.contains(key)) by {
                    if prev.contains(key) {
                        assert(prev.to_set().contains(key));
                    }
                }
                self.claims_without_evals_dedup.insert(id, clone_point(&needs[i].1), ());
                let ghost before = fresh@;
                let point = clone_point(&needs[i].1);
                fresh.push((id, point));
                proof {
                    assert(keys_view(fresh@) =~= keys_view(before).push(key));
                    prev.lemma_push_to_set_commute(key);
                    assert(self.claims_without_evals_dedup@.dom() =~= st.dedup.union(
                        fresh_keys(st, (i + 1) as nat).to_set(),
                    ));
                }
            }
            i += 1;
        }
        proof {
            assert(self.state().needs_eval =~= Seq::empty());
            assert(self.state().pending == st.pending);
            assert(self.order_matches());
            assert(self.committed_spec() == old(self).committed_spec());
            assert(self.bivariate_spec() == old(self).bivariate_spec());
        }
        fresh
    }

    /// Values one key from the witness: evaluates the oracle's column
    /// against the memoized tensor expansion of the point. Fails with
    /// `MissingQuery` where the expansion was not memoized, and else with
    /// `MissingWitness` where the witness holds no column for the oracle.
    pub fn make_new_eval_claim(
        id: OracleId,
        eval_point: Vec<F>,
        witness_index: &MultilinearExtensionIndex<F>,
        memoized_queries: &MemoizedQueries<F>,
    ) -> (r: Result<EvalcheckMultilinearClaim<F>, Error>)
        requires
            memoized_queries.wf(),
            column_of(witness_index.columns@, id) is Some ==> column_of(
                witness_index.columns@,
                id,
            )->0.len() == pow2(eval_point@.len()),
        ensures
            eval_claim_result(
                witness_index.columns@,
                memoized_queries.memoized(eval_point@),
                (id, eval_point@),
                r,
            ),
    {
        let eval_query = match memoized_queries.full_query_readonly(&eval_point) {
            Some(query) => query,
            None => {
                return Err(Error::MissingQuery);
            },
        };
        let witness_poly = match witness_index.get_multilin_poly(id) {
            Ok(column) => column,
            Err(e) => {
                return Err(Error::Witness(e));
            },
        };
        proof {
            lemma_tensor_expansion_len(eval_point@);
        }
        let eval = evaluate(witness_poly, eval_query);
        Ok(EvalcheckMultilinearClaim { id, eval_point, eval })
    }

    /// Values the keys from the witness, the keys shared out among the
    /// threads of the pool.
    ///
    /// Wraps `par_iter`, `map` and `collect` of rayon, which hand each key
    /// to [`Self::make_new_eval_claim`] and collect the results in the
    /// order of the keys.
    #[verifier::external_body]
    fn make_new_eval_claims_par(
        keys: &Vec<(OracleId, Vec<F>)>,
        witness_index: &MultilinearExtensionIndex<F>,
        memoized_queries: &MemoizedQueries<F>,
    ) -> (r: Vec<Result<EvalcheckMultilinearClaim<F>, Error>>)
        requires
            memoized_queries.wf(),
            columns_match(witness_index.columns@, keys@),
        ensures
            r@.len() == keys@.len(),
            forall|i: int|
                0 <= i < keys@.len() ==> eval_claim_result(
                    witness_index.columns@,
                    memoized_queries.memoized(keys@[i].1@),
                    (keys@[i].0, keys@[i].1@),
                    #[trigger] r@[i],
                ),
    {
        keys.par_iter().map(
            |key| Self::make_new_eval_claim(key.0, clone_point(&key.1), witness_index, memoized_queries),
        ).collect()
    }

    /// Values the keys from the witness. Fails at the first key whose
    /// oracle has no column.
    fn value_keys(&mut self, keys: &Vec<(OracleId, Vec<F>)>) -> (r: Result<
        Vec<EvalcheckMultilinearClaim<F>>,
        Error,
    >)
        requires
            old(self).parts_wf(),
            forall|i: int|
                0 <= i < keys@.len() ==> key_ok(old(self).oracles_spec(), #[trigger] keys_view(keys@)[i]),
        ensures
            final(self).parts_wf(),
            final(self).state() == old(self).state(),
            final(self).same_outputs(old(self)),
            match r {
                Ok(claims) => all_valued(old(self).columns_spec(), keys_view(keys@)) && claims_view(
                    claims@,
                ) == valued_claims(old(self).columns_spec(), keys_view(keys@)),
                Err(e) => reports_first_unvalued(old(self).columns_spec(), keys_view(keys@), e),
            },
    {
        let ghost columns = self.columns_spec();
        let ghost kv = keys_view(keys@);
        let mut points: Vec<Vec<F>> = Vec::new();
        let mut i: usize = 0;
        while i < keys.len()
            invariant
                i <= keys@.len(),
                points@.len() == i,
                forall|j: int| 0 <= j < i ==> (#[trigger] points@[j])@ == keys@[j].1@,
            decreases keys@.len() - i,
        {
            points.push(clone_point(&keys[i].1));
            i += 1;
        }
        let ghost before = *self;
        self.memoized_queries.memoize_query_par(&points);
        proof {
            assert(self.state() == before.state());
            assert(self.order_matches());
            assert(self.committed_spec() == before.committed_spec());
            assert(self.bivariate_spec() == before.bivariate_spec());
            assert(self.parts_wf());
            assert forall|i: int| 0 <= i < keys@.len() implies (column_of(
                columns,
                (#[trigger] keys@[i]).0,
            ) is Some ==> column_of(columns, keys@[i].0)->0.len() == pow2(keys@[i].1@.len())) by {
                assert(key_ok(self.oracles_spec(), kv[i]));
            }
            assert forall|i: int| 0 <= i < keys@.len() implies self.memoized_queries.memoized(
                (#[trigger] keys@[i]).1@,
            ) by {
                assert(points@[i]@ == keys@[i].1@);
            }
        }
        let mut results = Self::make_new_eval_claims_par(
            keys,
            &self.witness_index,
            &self.memoized_queries,
        );
        let mut claims: Vec<EvalcheckMultilinearClaim<F>> = Vec::new();
        let mut j: usize = 0;
        while j < results.len()
            invariant
                j <= results@.len(),
                results@.len() == keys@.len(),
                kv == keys_view(keys@),
                forall|i: int|
                    0 <= i < keys@.len() ==> eval_claim_result(
                        columns,
                        true,
                        kv[i],
                        #[trigger] results@[i],
                    ),
                all_valued(columns, kv.take(j as int)),
                claims_view(claims@) == valued_claims(columns, kv).take(j as int),
                self.parts_wf(),
                self.state() == old(self).state(),
                self.same_outputs(old(self)),
                columns == old(self).columns_spec(),
            decreases results@.len() - j,
        {
            assert(eval_claim_result(columns, true, kv[j as int], results@[j as int]));
            match &results[j] {
                Ok(claim) => {
                    let ghost prior = claims@;
                    claims.push(claim.duplicate());
                    proof {
                        assert(claims_view(claims@) =~= claims_view(prior).push(claim@));
                        assert(valued_claims(columns, kv).take(j + 1) =~= valued_claims(
                            columns,
                            kv,
                        ).take(j as int).push(valued_claim(columns, kv[j as int])));
                        assert forall|i: int| 0 <= i < kv.take(j + 1).len() implies column_of(
                            columns,
                            (#[trigger] kv.take(j + 1)[i]).0,
                        ) is Some by {
                            if i < j {
                                assert(kv.take(j as int)[i] == kv.take(j + 1)[i]);
                            }
                        }
                    }
                },
                Err(e) => {
                    assert(first_unvalued(columns, kv, j as int));
                    return Err(*e);
                },
            }
            j += 1;
        }
        proof {
            assert(kv.take(keys@.len() as int) =~= kv);
            assert(valued_claims(columns, kv).take(keys@.len() as int) =~= valued_claims(columns, kv));
        }
        Ok(claims)
    }

    /// One evaluation round: the keys that wait are deduplicated, valued
    /// from the witness, and the resulting claims reduced in order.
    fn evaluate_waiting(&mut self) -> (r: Result<(), Error>)
        requires
            old(self).inv_flight(Seq::empty()),
            old(self).state().queue.len() == 0,
            old(self).state().needs_eval.len() > 0,
        ensures
            final(self).same_outputs(old(self)),
            match r {
                Ok(()) => evaluation_round(
                    old(self).oracles_spec(),
                    old(self).columns_spec(),
                    old(self).state(),
                ) == Some(final(self).state()) && final(self).inv_flight(Seq::empty()) && work(
                    final(self).oracles_spec(),
                    final(self).state(),
                ) < work(old(self).oracles_spec(), old(self).state()),
                Err(e) => evaluation_round(
                    old(self).oracles_spec(),
                    old(self).columns_spec(),
                    old(self).state(),
                ) is None && reports_first_unvalued(
                    old(self).columns_spec(),
                    fresh_keys(old(self).state(), old(self).state().needs_eval.len()),
                    e,
                ),
            },
    {
        let ghost oracles = self.oracles_spec();
        let ghost columns = self.columns_spec();
        let ghost st = self.state();
        let ghost n = st.needs_eval.len();
        let fresh = self.take_fresh_keys();
        let ghost fk = fresh_keys(st, n);
        proof {
            lemma_fresh_keys(st, n);
            lemma_fresh_keys_weight(oracles, st, n);
            lemma_start_evaluation(oracles, columns, st);
            assert(st.needs_eval.take(n as int) =~= st.needs_eval);
            assert forall|i: int| 0 <= i < fresh@.len() implies key_ok(
                oracles,
                #[trigger] keys_view(fresh@)[i],
            ) by {
                assert(st.needs_eval.contains(fk[i]));
                let j = choose|j: int| 0 <= j < st.needs_eval.len() && st.needs_eval[j] == fk[i];
                assert(key_ok(oracles, st.needs_eval[j]));
            }
        }
        let claims = match self.value_keys(&fresh) {
            Ok(claims) => claims,
            Err(e) => {
                proof {
                    let i = choose|i: int| #[trigger]
                        first_unvalued(columns, fk, i) && e == Error::Witness(
                            WitnessError::MissingWitness { id: fk[i].0 },
                        );
                    assert(first_unvalued(columns, fk, i));
                    assert(!all_valued(columns, fk));
                }
                return Err(e);
            },
        };
        proof {
            assert(claim_keys(valued_claims(columns, fk)) =~= fk);
            assert(claim_keys(evaluation_base(st).queue) =~= Seq::empty());
            assert(keys_weight(oracles, st.needs_eval) >= 1) by {
                lemma_weight_positive(oracles, st.needs_eval.last());
            }
        }
        self.reduce_batch(claims);
        Ok(())
    }

    /// Runs the engine until nothing is queued and no key waits for a
    /// value: drains the queue, values the keys that wait, and so on.
    fn reduce_to_fixpoint(&mut self) -> (r: Result<(), Error>)
        requires
            old(self).inv_flight(Seq::empty()),
        ensures
            final(self).same_outputs(old(self)),
            match r {
                Ok(()) => final(self).inv_flight(Seq::empty()) && quiescent(final(self).state())
                    && exists|n: nat|
                    run(
                        old(self).oracles_spec(),
                        old(self).columns_spec(),
                        old(self).state(),
                        n,
                    ) == Some(final(self).state()),
                Err(e) => exists|n: nat|
                    fails_after(
                        old(self).oracles_spec(),
                        old(self).columns_spec(),
                        old(self).state(),
                        n,
                        e,
                    ),
            },
    {
        let ghost oracles = self.oracles_spec();
        let ghost columns = self.columns_spec();
        let ghost start = self.state();
        let ghost mut n: nat = 0;
        loop
            invariant
                self.inv_flight(Seq::empty()),
                self.same_outputs(old(self)),
                self.oracles_spec() == oracles,
                self.columns_spec() == columns,
                oracles == old(self).oracles_spec(),
                columns == old(self).columns_spec(),
                start == old(self).state(),
                run(oracles, columns, start, n) == Some(self.state()),
            ensures
                quiescent(self.state()),
            decreases work(oracles, self.state()),
        {
            let ghost before = self.state();
            if self.claims_queue.len() > 0 {
                self.drain_queue();
            } else if self.claims_without_evals.len() > 0 {
                match self.evaluate_waiting() {
                    Ok(()) => {},
                    Err(e) => {
                        proof {
                            assert(fails_after(oracles, columns, start, n, e));
                        }
                        return Err(e);
                    },
                }
            } else {
                break ;
            }
            proof {
                assert(step(oracles, columns, before) == Some(self.state()));
                n = n + 1;
            }
        }
        Ok(())
    }

    /// Tries to complete one pending claim: where all its children are
    /// finalized, its proof is put together from theirs and the claim is
    /// finalized with the value it was made with. Else nothing changes.
    fn complete_proof(&mut self, evalcheck_claim: &EvalcheckMultilinearClaim<F>) -> (done: bool)
        requires
            old(self).oracles.wf(),
            old(self).finalized_proofs.wf(),
            claim_ok(old(self).oracles_spec(), evalcheck_claim@),
            !is_leaf(old(self).oracles_spec()[evalcheck_claim.id as int].variant),
        ensures
            final(self).finalized_proofs.wf(),
            final(self).same_but_finalized(old(self)),
            done == children_finalized(
                old(self).oracles_spec(),
                old(self).state().finalized,
                evalcheck_claim@.key(),
            ),
            !done || old(self).state().finalized.contains_key(evalcheck_claim@.key())
                ==> final(self).state().finalized == old(self).state().finalized,
            done && !old(self).state().finalized.contains_key(evalcheck_claim@.key())
                ==> final(self).state().finalized == old(self).state().finalized.insert(
                evalcheck_claim@.key(),
                (
                    evalcheck_claim.eval,
                    assembled_from(
                        old(self).oracles_spec(),
                        old(self).state().finalized,
                        evalcheck_claim@.key(),
                    ),
                ),
            ),
    {
        let ghost oracles = self.oracles_spec();
        let ghost fin = self.state().finalized;
        let ghost key = evalcheck_claim@.key();
        let ghost kids = child_keys(oracles, key);
        let id = evalcheck_claim.id;
        let eval = evalcheck_claim.eval;
        proof {
            assert(oracle_fits(oracles, id as int));
        }
        let proof_built = match &self.oracles.oracle(id).variant {
            OracleVariant::Repeating { inner, .. } => {
                let n_vars = self.oracles.n_vars(*inner);
                let inner_eval_point = prefix_point(&evalcheck_claim.eval_point, n_vars);
                assert(kids[0] == (*inner, inner_eval_point@));
                match self.finalized_proofs.get(*inner, &inner_eval_point) {
                    Some(entry) => {
                        let built = EvalcheckProof::Repeating(Box::new(entry.1.duplicate()));
                        assert(Seq::new(kids.len(), |j: int| fin[kids[j]])[0] == fin[kids[0]]);
                        built
                    },
                    None => {
                        return false;
                    },
                }
            },
            OracleVariant::Projected { inner, values, variant } => {
                let new_eval_point = projected_eval_point(
                    &evalcheck_claim.eval_point,
                    values,
                    *variant,
                );
                assert(kids[0] == (*inner, new_eval_point@));
                match self.finalized_proofs.get(*inner, &new_eval_point) {
                    Some(entry) => {
                        let built = entry.1.duplicate();
                        assert(Seq::new(kids.len(), |j: int| fin[kids[j]])[0] == fin[kids[0]]);
                        built
                    },
                    None => {
                        return false;
                    },
                }
            },
            OracleVariant::LinearCombination { offset, terms } => {
                let mut subproofs: Vec<(F, EvalcheckProof<F>)> = Vec::new();
                let mut j: usize = 0;
                while j < terms.len()
                    invariant
                        j <= terms@.len(),
                        self.finalized_proofs.wf(),
                        *self == *old(self),
                        fin == self.state().finalized,
                        key == evalcheck_claim@.key(),
                        kids == Seq::new(terms@.len(), |j: int| (terms@[j].0, key.1)),
                        kids == child_keys(oracles, key),
                        oracles == old(self).oracles_spec(),
                        subproofs@.len() == j,
                        forall|i: int|
                            0 <= i < j ==> fin.contains_key(#[trigger] kids[i]) && fin[kids[i]] == (
                                subproofs@[i].0,
                                subproofs@[i].1@,
                            ),
                    decreases terms@.len() - j,
                {
                    match self.finalized_proofs.get(terms[j].0, &evalcheck_claim.eval_point) {
                        Some(entry) => {
                            subproofs.push((entry.0, entry.1.duplicate()));
                        },
                        None => {
                            assert(!fin.contains_key(kids[j as int]));
                            return false;
                        },
                    }
                    j += 1;
                }
                let built = EvalcheckProof::LinearCombination { subproofs };
                assert(built@->subproofs =~= Seq::new(kids.len(), |j: int| fin[kids[j]]));
                built
            },
            OracleVariant::ZeroPadded { inner } => {
                let inner_n_vars = self.oracles.n_vars(*inner);
                let inner_eval_point = prefix_point(&evalcheck_claim.eval_point, inner_n_vars);
                assert(kids[0] == (*inner, inner_eval_point@));
                match self.finalized_proofs.get(*inner, &inner_eval_point) {
                    Some(entry) => {
                        let built = EvalcheckProof::ZeroPadded(
                            entry.0,
                            Box::new(entry.1.duplicate()),
                        );
                        assert(Seq::new(kids.len(), |j: int| fin[kids[j]])[0] == fin[kids[0]]);
                        built
                    },
                    None => {
                        return false;
                    },
                }
            },
            _ => {
                return false;
            },
        };
        assert(proof_built@ == assembled_from(oracles, fin, key));
        assert(children_finalized(oracles, fin, key));
        let ghost built = proof_built@;
        self.finalized_proofs.insert(id, clone_point(&evalcheck_claim.eval_point), (eval, proof_built));
        proof {
            if fin.contains_key(key) {
                assert(self.state().finalized =~= fin);
            } else {
                assert(self.state().finalized =~= fin.insert(key, (eval, built)));
            }
        }
        true
    }

    /// Whether each claim of the list is a pending claim of `st`.
    spec fn all_pending(
        st: ProverState<F>,
        claims: Seq<EvalcheckMultilinearClaim<F>>,
    ) -> bool {
        forall|i: int|
            0 <= i < claims.len() ==> st.pending.contains_key((#[trigger] claims[i])@.key())
                && st.pending[claims[i]@.key()] == claims[i]@
    }

    /// One scan of the completion phase: tries each claim of the batch in
    /// order and returns those that have to wait for another scan.
    fn complete_scan(
        &mut self,
        batch: Vec<EvalcheckMultilinearClaim<F>>,
        Ghost(st): Ghost<ProverState<F>>,
    ) -> (remaining: Vec<EvalcheckMultilinearClaim<F>>)
        requires
            batch@.len() > 0,
            old(self).oracles.wf(),
            old(self).finalized_proofs.wf(),
            state_inv(old(self).oracles_spec(), st, Seq::empty()),
            quiescent(st),
            partly_completed(old(self).oracles_spec(), st, old(self).state().finalized),
            finalized_inv(old(self).oracles_spec(), old(self).state().finalized),
            Self::all_pending(st, batch@),
            forall|k: ClaimKey<F>| #[trigger]
                st.pending.contains_key(k) ==> old(self).state().finalized.contains_key(k)
                    || in_claims(claims_view(batch@), k),
        ensures
            remaining@.len() < batch@.len(),
            final(self).finalized_proofs.wf(),
            final(self).same_but_finalized(old(self)),
            partly_completed(final(self).oracles_spec(), st, final(self).state().finalized),
            finalized_inv(final(self).oracles_spec(), final(self).state().finalized),
            Self::all_pending(st, remaining@),
            forall|k: ClaimKey<F>| #[trigger]
                st.pending.contains_key(k) ==> final(self).state().finalized.contains_key(k)
                    || in_claims(claims_view(remaining@), k),
    {
        let ghost oracles = self.oracles_spec();
        let ghost start = self.state().finalized;
        let ghost claims = claims_view(batch@);
        let ghost none = Seq::<ClaimSpec<F>>::empty();
        let ghost least = lemma_least_id(claims);
        proof {
            let top = claims[least].key();
            assert(batch@[least]@ == claims[least]);
            assert(pending_ok(oracles, st, none, top));
            assert forall|j: int| 0 <= j < child_keys(oracles, top).len() implies start.contains_key(
                #[trigger] child_keys(oracles, top)[j],
            ) by {
                let ck = child_keys(oracles, top)[j];
                lemma_child_keys_ok(oracles, top, j);
                assert(accounted(st, none, ck) || st.needs_eval.contains(ck));
                if !st.finalized.contains_key(ck) {
                    assert(st.pending.contains_key(ck));
                    if in_claims(claims, ck) {
                        let i = choose|i: int|
                            0 <= i < claims.len() && (#[trigger] claims[i]).key() == ck;
                        assert(claims[least].id <= claims[i].id);
                    }
                }
            }
            assert(claims.skip(0) =~= claims);
        }
        let mut remaining: Vec<EvalcheckMultilinearClaim<F>> = Vec::new();
        let mut i: usize = 0;
        while i < batch.len()
            invariant
                i <= batch@.len(),
                0 <= least < batch@.len(),
                claims == claims_view(batch@),
                oracles == self.oracles_spec(),
                self.oracles.wf(),
                self.finalized_proofs.wf(),
                self.same_but_finalized(old(self)),
                none == Seq::<ClaimSpec<F>>::empty(),
                state_inv(oracles, st, none),
                partly_completed(oracles, st, self.state().finalized),
                finalized_inv(oracles, self.state().finalized),
                Self::all_pending(st, batch@),
                Self::all_pending(st, remaining@),
                forall|k: ClaimKey<F>| #[trigger]
                    start.contains_key(k) ==> self.state().finalized.contains_key(k),
                children_finalized(oracles, start, claims[least].key()),
                remaining@.len() <= i,
                i > least ==> remaining@.len() < i,
                forall|k: ClaimKey<F>| #[trigger]
                    st.pending.contains_key(k) ==> self.state().finalized.contains_key(k)
                        || in_claims(claims_view(remaining@), k) || in_claims(
                        claims.skip(i as int),
                        k,
                    ),
            decreases batch@.len() - i,
        {
            let ghost fin = self.state().finalized;
            let ghost key = batch@[i as int]@.key();
            let ghost prior = remaining@;
            proof {
                assert(st.pending.contains_key(key) && st.pending[key] == batch@[i as int]@);
                assert(pending_ok(oracles, st, none, key));
                if i == least {
                    assert forall|j: int|
                        0 <= j < child_keys(oracles, key).len() implies fin.contains_key(
                        #[trigger] child_keys(oracles, key)[j],
                    ) by {
                        assert(start.contains_key(child_keys(oracles, key)[j]));
                    }
                }
            }
            let done = self.complete_proof(&batch[i]);
            if !done {
                remaining.push(batch[i].duplicate());
            }
            proof {
                let now = self.state().finalized;
                if done && !fin.contains_key(key) {
                    lemma_assembled_is_built(oracles, st, fin, key);
                    assert forall|k: ClaimKey<F>| #[trigger] now.contains_key(k) implies key_ok(
                        oracles,
                        k,
                    ) && children_finalized(oracles, now, k) by {
                        if k != key {
                            assert(children_finalized(oracles, fin, k));
                        }
                    }
                }
                assert forall|k: ClaimKey<F>| #[trigger] st.pending.contains_key(k) implies now.contains_key(
                    k,
                ) || in_claims(claims_view(remaining@), k) || in_claims(claims.skip(i + 1), k) by {
                    if !fin.contains_key(k) {
                        if in_claims(claims_view(prior), k) {
                            let j = choose|j: int|
                                0 <= j < prior.len() && (#[trigger] claims_view(prior)[j]).key()
                                    == k;
                            assert(claims_view(remaining@)[j].key() == k);
                        } else {
                            let j = choose|j: int|
                                0 <= j < claims.skip(i as int).len() && (#[trigger] claims.skip(
                                    i as int,
                                )[j]).key() == k;
                            if j == 0 {
                                if !done {
                                    assert(claims_view(remaining@)[prior.len() as int].key() == k);
                                }
                            } else {
                                assert(claims.skip(i + 1)[j - 1].key() == k);
                            }
                        }
                    }
                }
            }
            i += 1;
        }
        proof {
            assert forall|k: ClaimKey<F>| #[trigger] st.pending.contains_key(k) implies self.state().finalized.contains_key(
                k,
            ) || in_claims(claims_view(remaining@), k) by {
                assert(claims.skip(batch@.len() as int) =~= none);
            }
        }
        remaining
    }

    /// The completion phase: scans the pending claims again and again,
    /// finalizing those whose children are finalized, until none is left.
    fn complete_proofs(&mut self)
        requires
            old(self).inv_flight(Seq::empty()),
            quiescent(old(self).state()),
        ensures
            final(self).state() == complete_all(old(self).oracles_spec(), old(self).state()),
            final(self).inv_flight(Seq::empty()),
            final(self).same_surroundings(old(self)),
    {
        let ghost oracles = self.oracles_spec();
        let ghost st = self.state();
        let ghost none = Seq::<ClaimSpec<F>>::empty();
        let mut remaining: Vec<EvalcheckMultilinearClaim<F>> = Vec::new();
        core::mem::swap(&mut remaining, &mut self.incomplete_order);
        proof {
            assert(self.state() == st);
            assert(Self::all_pending(st, remaining@));
            assert forall|k: ClaimKey<F>| #[trigger]
                completed(oracles, st).contains_key(k) && st.finalized.contains_key(k) implies st.finalized[k]
                == completed(oracles, st)[k] by {}
        }
        while remaining.len() > 0
            invariant
                oracles == self.oracles_spec(),
                self.oracles.wf(),
                self.finalized_proofs.wf(),
                self.same_surroundings(old(self)),
                self.claims_queue == old(self).claims_queue,
                self.incomplete_proof_claims == old(self).incomplete_proof_claims,
                self.incomplete_order@.len() == 0,
                self.claims_without_evals == old(self).claims_without_evals,
                self.claims_without_evals_dedup == old(self).claims_without_evals_dedup,
                old(self).parts_wf(),
                st == old(self).state(),
                none == Seq::<ClaimSpec<F>>::empty(),
                state_inv(oracles, st, none),
                quiescent(st),
                partly_completed(oracles, st, self.state().finalized),
                finalized_inv(oracles, self.state().finalized),
                Self::all_pending(st, remaining@),
                forall|k: ClaimKey<F>| #[trigger]
                    st.pending.contains_key(k) ==> self.state().finalized.contains_key(k)
                        || in_claims(claims_view(remaining@), k),
            decreases remaining@.len(),
        {
            let mut batch: Vec<EvalcheckMultilinearClaim<F>> = Vec::new();
            core::mem::swap(&mut batch, &mut remaining);
            remaining = self.complete_scan(batch, Ghost(st));
        }
        self.incomplete_proof_claims = EvalPointOracleIdMap::new();
        proof {
            let target = complete_all(oracles, st);
            assert(self.state().finalized =~= target.finalized);
            assert(self.state().pending =~= target.pending);
            assert(self.state() == target);
            lemma_complete_all_inv(oracles, st);
            assert(self.order_matches());
            assert(self.committed_spec() == old(self).committed_spec());
            assert(self.bivariate_spec() == old(self).bivariate_spec());
            assert(self.parts_wf());
        }
    }

    /// The claims about the children of the oracle of a claim. A child of
    /// a repeating or projected oracle takes the value of the claim, any
    /// other child the value under which it is finalized.
    fn child_claims_of(&self, claim: &EvalcheckMultilinearClaim<F>) -> (children: Vec<
        EvalcheckMultilinearClaim<F>,
    >)
        requires
            self.oracles.wf(),
            self.finalized_proofs.wf(),
            claim_ok(self.oracles_spec(), claim@),
            children_finalized(self.oracles_spec(), self.state().finalized, claim@.key()),
        ensures
            claims_view(children@) == child_claims(
                self.oracles_spec(),
                self.state().finalized,
                claim@,
            ),
    {
        let ghost oracles = self.oracles_spec();
        let ghost table = self.state().finalized;
        let ghost key = claim@.key();
        let ghost kids = child_keys(oracles, key);
        let ghost target = child_claims(oracles, table, claim@);
        let mut children: Vec<EvalcheckMultilinearClaim<F>> = Vec::new();
        proof {
            assert(oracle_fits(oracles, claim.id as int));
        }
        match &self.oracles.oracle(claim.id).variant {
            OracleVariant::Repeating { inner, .. } => {
                let n_vars = self.oracles.n_vars(*inner);
                children.push(
                    EvalcheckMultilinearClaim {
                        id: *inner,
                        eval_point: prefix_point(&claim.eval_point, n_vars),
                        eval: claim.eval,
                    },
                );
            },
            OracleVariant::Projected { inner, values, variant } => {
                children.push(
                    EvalcheckMultilinearClaim {
                        id: *inner,
                        eval_point: projected_eval_point(&claim.eval_point, values, *variant),
                        eval: claim.eval,
                    },
                );
            },
            OracleVariant::LinearCombination { offset, terms } => {
                let mut j: usize = 0;
                while j < terms.len()
                    invariant
                        j <= terms@.len(),
                        self.finalized_proofs.wf(),
                        table == self.state().finalized,
                        key == claim@.key(),
                        kids == Seq::new(terms@.len(), |j: int| (terms@[j].0, key.1)),
                        children_finalized(oracles, table, key),
                        kids == child_keys(oracles, key),
                        target == child_claims(oracles, table, claim@),
                        oracles[claim.id as int].variant is LinearCombination,
                        claims_view(children@) == target.take(j as int),
                    decreases terms@.len() - j,
                {
                    assert(table.contains_key(kids[j as int]));
                    let eval = self.finalized_proofs.get(terms[j].0, &claim.eval_point).unwrap().0;
                    let ghost prior = children@;
                    let child = EvalcheckMultilinearClaim {
                        id: terms[j].0,
                        eval_point: clone_point(&claim.eval_point),
                        eval,
                    };
                    children.push(child);
                    assert(claims_view(children@) =~= claims_view(prior).push(child@));
                    assert(target.take(j + 1) =~= target.take(j as int).push(target[j as int]));
                    j += 1;
                }
                assert(target.take(terms@.len() as int) =~= target);
            },
            OracleVariant::ZeroPadded { inner } => {
                let inner_n_vars = self.oracles.n_vars(*inner);
                let inner_eval_point = prefix_point(&claim.eval_point, inner_n_vars);
                assert(kids[0] == (*inner, inner_eval_point@));
                assert(table.contains_key(kids[0]));
                let eval = self.finalized_proofs.get(*inner, &inner_eval_point).unwrap().0;
                children.push(
                    EvalcheckMultilinearClaim { id: *inner, eval_point: inner_eval_point, eval },
                );
            },
            _ => {},
        }
        assert(claims_view(children@) =~= target);
        children
    }

    /// Walks a claim depth first through the structure of its oracle and
    /// hands every claim on a committed polynomial to the list for the
    /// commitment scheme, and every claim on a shifted or packed
    /// polynomial to the list for the sumcheck protocol. The walk keeps
    /// its own stack, so that a deep oracle graph costs no call depth.
    fn collect_projected_committed(&mut self, evalcheck_claim: EvalcheckMultilinearClaim<F>)
        requires
            old(self).parts_wf(),
            finalized_inv(old(self).oracles_spec(), old(self).state().finalized),
            claim_ok(old(self).oracles_spec(), evalcheck_claim@),
            old(self).state().finalized.contains_key(evalcheck_claim@.key()),
        ensures
            final(self).parts_wf(),
            final(self).same_but_collected(old(self)),
            final(self).collected_spec() == old(self).collected_spec().append(
                collect(old(self).oracles_spec(), old(self).state().finalized, evalcheck_claim@),
            ),
    {
        let ghost oracles = self.oracles_spec();
        let ghost table = self.state().finalized;
        let ghost target = old(self).collected_spec().append(collect(oracles, table, evalcheck_claim@));
        let mut stack: Vec<EvalcheckMultilinearClaim<F>> = Vec::new();
        stack.push(evalcheck_claim);
        proof {
            let sv = claims_view(stack@);
            assert(sv.drop_last() =~= Seq::empty());
            assert(sv.last() == evalcheck_claim@);
            lemma_append_laws(collect(oracles, table, evalcheck_claim@), Collected::none(), Collected::none());
            assert(collect_stack(oracles, table, sv.drop_last()) == Collected::<F>::none());
            assert(collect_stack(oracles, table, sv) == collect(oracles, table, evalcheck_claim@));
        }
        while stack.len() > 0
            invariant
                oracles == self.oracles_spec(),
                table == self.state().finalized,
                self.parts_wf(),
                self.same_but_collected(old(self)),
                finalized_inv(oracles, table),
                forall|i: int|
                    0 <= i < stack@.len() ==> claim_ok(oracles, (#[trigger] stack@[i])@)
                        && table.contains_key(stack@[i]@.key()),
                self.collected_spec().append(collect_stack(oracles, table, claims_view(stack@)))
                    == target,
            decreases keys_weight(oracles, claim_keys(claims_view(stack@))),
        {
            let ghost before = claims_view(stack@);
            let ghost acc = self.collected_spec();
            let claim = stack.pop().unwrap();
            let ghost rest = claims_view(stack@);
            let ghost key = claim@.key();
            proof {
                assert(before.drop_last() =~= rest);
                assert(before.last() == claim@);
                assert(claim_keys(before).drop_last() =~= claim_keys(rest));
                assert(claim_keys(before).last() == key);
                lemma_weight_positive(oracles, key);
                assert(children_finalized(oracles, table, key));
                lemma_append_laws(acc, collect(oracles, table, claim@), collect_stack(oracles, table, rest));
            }
            let is_committed = match &self.oracles.oracle(claim.id).variant {
                OracleVariant::Committed => true,
                _ => false,
            };
            let is_bivariate = match &self.oracles.oracle(claim.id).variant {
                OracleVariant::Shifted { .. } => true,
                OracleVariant::Packed { .. } => true,
                _ => false,
            };
            if is_committed {
                let ghost prior = self.committed_eval_claims@;
                self.committed_eval_claims.push(claim);
                proof {
                    assert(claims_view(self.committed_eval_claims@) =~= claims_view(prior).push(claim@));
                    assert(self.committed_spec() =~= acc.committed + seq![claim@]);
                    assert(self.collected_spec() == acc.append(collect(oracles, table, claim@)));
                    assert(self.order_matches());
                }
            } else if is_bivariate {
                let ghost prior = self.projected_bivariate_claims@;
                self.projected_bivariate_claims.push(claim);
                proof {
                    assert(claims_view(self.projected_bivariate_claims@) =~= claims_view(prior).push(
                        claim@,
                    ));
                    assert(self.bivariate_spec() =~= acc.bivariate + seq![claim@]);
                    assert(self.collected_spec() == acc.append(collect(oracles, table, claim@)));
                    assert(self.order_matches());
                }
            } else {
                let mut children = self.child_claims_of(&claim);
                let ghost cc = child_claims(oracles, table, claim@);
                let ghost kids = child_keys(oracles, key);
                let ghost n = cc.len();
                proof {
                    assert(claim_keys(cc) =~= kids);
                    assert(cc.take(n as int) =~= cc);
                    assert(kids.take(n as int) =~= kids);
                    assert(n == children@.len());
                    assert(children.len() == n);
                    lemma_children_weight(oracles, key, n);
                    if oracles[claim.id as int].variant is Transparent {
                        assert(n == 0);
                        lemma_append_laws(acc, Collected::none(), Collected::none());
                    }
                    assert(collect(oracles, table, claim@) == collect_children(oracles, table, claim@, n));
                }
                while children.len() > 0
                    invariant
                        children@.len() <= n,
                        n == cc.len(),
                        cc == child_claims(oracles, table, claim@),
                        kids == child_keys(oracles, key),
                        key == claim@.key(),
                        claim_keys(cc) == kids,
                        claims_view(children@) == cc.take(children@.len() as int),
                        oracles_wf(oracles),
                        claim_ok(oracles, claim@),
                        children_finalized(oracles, table, key),
                        forall|i: int|
                            0 <= i < stack@.len() ==> claim_ok(oracles, (#[trigger] stack@[i])@)
                                && table.contains_key(stack@[i]@.key()),
                        collect_children(oracles, table, claim@, children@.len() as nat).append(
                            collect_stack(oracles, table, claims_view(stack@)),
                        ) == collect_children(oracles, table, claim@, n as nat).append(
                            collect_stack(oracles, table, rest),
                        ),
                        keys_weight(oracles, claim_keys(claims_view(stack@))) + keys_weight(
                            oracles,
                            kids.take(children@.len() as int),
                        ) == keys_weight(oracles, claim_keys(rest)) + keys_weight(
                            oracles,
                            kids.take(n as int),
                        ),
                    decreases children@.len(),
                {
                    let ghost j = children@.len() - 1;
                    let ghost sv = claims_view(stack@);
                    let ghost full = claims_view(children@);
                    let child = children.pop().unwrap();
                    proof {
                        assert(full[j] == cc.take(j + 1)[j]);
                        assert(child@ == cc[j]);
                        assert(claims_view(children@) =~= cc.take(j));
                        lemma_child_keys_ok(oracles, key, j);
                        assert(kids[j] == child@.key());
                        assert(table.contains_key(kids[j]));
                        lemma_collect_stack_push(oracles, table, sv, child@);
                        lemma_append_laws(
                            collect_children(oracles, table, claim@, j as nat),
                            collect(oracles, table, child@),
                            collect_stack(oracles, table, sv),
                        );
                        assert(kids.take(j + 1).drop_last() =~= kids.take(j));
                        assert(kids.take(j + 1).last() == kids[j]);
                    }
                    stack.push(child);
                    proof {
                        let sv2 = claims_view(stack@);
                        assert(sv2 =~= sv.push(child@));
                        assert(claim_keys(sv2).drop_last() =~= claim_keys(sv));
                        assert(claim_keys(sv2).last() == kids[j]);
                    }
                }
                proof {
                    lemma_append_laws(
                        Collected::none(),
                        collect_stack(oracles, table, claims_view(stack@)),
                        Collected::none(),
                    );
                    assert(kids.take(0) =~= Seq::empty());
                }
            }
        }
        proof {
            assert(claims_view(stack@) =~= Seq::empty());
            lemma_append_laws(self.collected_spec(), Collected::none(), Collected::none());
        }
    }

    /// The collection phase: walks each of the claims in order.
    fn collect_claims(&mut self, evalcheck_claims: &Vec<EvalcheckMultilinearClaim<F>>)
        requires
            old(self).parts_wf(),
            finalized_inv(old(self).oracles_spec(), old(self).state().finalized),
            claims_ok(old(self).oracles_spec(), claims_view(evalcheck_claims@)),
            forall|i: int|
                0 <= i < evalcheck_claims@.len() ==> old(self).state().finalized.contains_key(
                    (#[trigger] claims_view(evalcheck_claims@)[i]).key(),
                ),
        ensures
            final(self).parts_wf(),
            final(self).same_but_collected(old(self)),
            final(self).collected_spec() == old(self).collected_spec().append(
                collect_all(
                    old(self).oracles_spec(),
                    old(self).state().finalized,
                    claims_view(evalcheck_claims@),
                    evalcheck_claims@.len(),
                ),
            ),
    {
        let ghost oracles = self.oracles_spec();
        let ghost table = self.state().finalized;
        let ghost claims = claims_view(evalcheck_claims@);
        proof {
            lemma_append_laws(self.collected_spec(), Collected::none(), Collected::none());
        }
        let mut i: usize = 0;
        while i < evalcheck_claims.len()
            invariant
                i <= evalcheck_claims@.len(),
                claims == claims_view(evalcheck_claims@),
                oracles == self.oracles_spec(),
                table == self.state().finalized,
                self.parts_wf(),
                self.same_but_collected(old(self)),
                finalized_inv(oracles, table),
                claims_ok(oracles, claims),
                forall|k: int|
                    0 <= k < claims.len() ==> table.contains_key((#[trigger] claims[k]).key()),
                self.collected_spec() == old(self).collected_spec().append(
                    collect_all(oracles, table, claims, i as nat),
                ),
            decreases evalcheck_claims@.len() - i,
        {
            let claim = evalcheck_claims[i].duplicate();
            proof {
                assert(claim@ == claims[i as int]);
                assert(claim_ok(oracles, claims[i as int]));
                lemma_append_laws(
                    old(self).collected_spec(),
                    collect_all(oracles, table, claims, i as nat),
                    collect(oracles, table, claim@),
                );
            }
            self.collect_projected_committed(claim);
            i += 1;
        }
    }

    /// Adds the oracles of the sumcheck instance of a claim on a shifted
    /// or packed oracle: the projection of the inner oracle, where one is
    /// needed, and the transparent multiplier.
    pub fn projected_bivariate_meta(
        oracles: &mut MultilinearOracleSet<F>,
        evalcheck_claim: &EvalcheckMultilinearClaim<F>,
    ) -> (r: Result<ProjectedBivariateMeta, Error>)
        requires
            old(oracles).wf(),
            claim_ok(old(oracles).oracles@, evalcheck_claim@),
            is_bivariate(old(oracles).oracles@[evalcheck_claim.id as int].variant),
        ensures
            final(oracles).wf(),
            r == Ok::<ProjectedBivariateMeta, Error>(
                meta_at(
                    old(oracles).oracles@,
                    evalcheck_claim@,
                    old(oracles).oracles@.len() as int,
                ),
            ),
            extends(old(oracles).oracles@, final(oracles).oracles@),
            final(oracles).oracles@.len() == old(oracles).oracles@.len() + added_count(
                old(oracles).oracles@,
                evalcheck_claim@,
            ),
            r->Ok_0.multiplier_id < final(oracles).oracles@.len(),
            is_multiplier(
                final(oracles).oracles@[r->Ok_0.multiplier_id as int],
                old(oracles).oracles@[evalcheck_claim.id as int].variant,
                evalcheck_claim@.point,
            ),
            r->Ok_0.projected_id matches Some(pid) ==> pid < final(oracles).oracles@.len()
                && is_projection(
                final(oracles).oracles@[pid as int],
                r->Ok_0.inner_id,
                high_point(
                    old(oracles).oracles@[evalcheck_claim.id as int].variant,
                    evalcheck_claim@.point,
                ),
                r->Ok_0.projected_n_vars,
            ),
    {
        proof {
            assert(oracle_fits(oracles.oracles@, evalcheck_claim.id as int));
        }
        let (inner, offset, size, shift) = match &oracles.oracle(evalcheck_claim.id).variant {
            OracleVariant::Shifted { inner, shift_offset, block_size, shift_variant } => (
                *inner,
                *shift_offset,
                *block_size,
                Some(*shift_variant),
            ),
            OracleVariant::Packed { inner, log_degree } => (*inner, 0, *log_degree, None),
            _ => (0, 0, 0, None),
        };
        match shift {
            Some(shift_variant) => shifted_sumcheck_meta(
                oracles,
                inner,
                offset,
                size,
                shift_variant,
                &evalcheck_claim.eval_point,
            ),
            None => packed_sumcheck_meta(oracles, inner, size, &evalcheck_claim.eval_point),
        }
    }

    /// Adds the oracles of the sumcheck instances of all the claims that
    /// wait for it, claim after claim, and returns their metas.
    fn bivariate_metas(&mut self) -> (r: Result<Vec<ProjectedBivariateMeta>, Error>)
        requires
            old(self).inv_flight(Seq::empty()),
        ensures
            final(self).same_but_oracles(old(self)),
            final(self).oracles.wf(),
            r is Ok,
            oracles_extended(
                old(self).oracles_spec(),
                final(self).oracles_spec(),
                old(self).bivariate_spec(),
                old(self).bivariate_spec().len(),
            ),
            r->Ok_0@.len() == old(self).bivariate_spec().len(),
            forall|i: int|
                0 <= i < r->Ok_0@.len() ==> (#[trigger] r->Ok_0@[i]) == meta_of(
                    old(self).oracles_spec(),
                    old(self).bivariate_spec(),
                    i,
                ),
    {
        let ghost start = self.oracles_spec();
        let ghost claims = self.bivariate_spec();
        let mut metas: Vec<ProjectedBivariateMeta> = Vec::new();
        let mut i: usize = 0;
        proof {
            assert(start.take(start.len() as int) =~= start);
        }
        while i < self.projected_bivariate_claims.len()
            invariant
                i <= self.projected_bivariate_claims@.len(),
                self.same_but_oracles(old(self)),
                self.oracles.wf(),
                oracles_wf(start),
                claims == claims_view(self.projected_bivariate_claims@),
                forall|k: int|
                    0 <= k < claims.len() ==> claim_ok(start, #[trigger] claims[k]) && is_bivariate(
                        start[claims[k].id as int].variant,
                    ),
                extends(start, self.oracles_spec()),
                oracles_extended(start, self.oracles_spec(), claims, i as nat),
                metas@.len() == i,
                forall|k: int| 0 <= k < i ==> (#[trigger] metas@[k]) == meta_of(start, claims, k),
            decreases self.projected_bivariate_claims@.len() - i,
        {
            let ghost before = self.oracles_spec();
            let ghost claim = claims[i as int];
            proof {
                lemma_extension_keeps_children(start, before, claim.key());
                assert(oracle_fits(start, claim.id as int));
                let inner = bivariate_inner(start[claim.id as int].variant);
                assert(before.take(start.len() as int)[inner as int] == before[inner as int]);
                assert(self.projected_bivariate_claims@[i as int]@ == claim);
            }
            let meta = match Self::projected_bivariate_meta(
                &mut self.oracles,
                &self.projected_bivariate_claims[i],
            ) {
                Ok(meta) => meta,
                Err(e) => {
                    return Err(e);
                },
            };
            metas.push(meta);
            proof {
                let after = self.oracles_spec();
                assert(meta == meta_of(start, claims, i as int));
                assert(after.take(start.len() as int) =~= start) by {
                    assert(after.take(before.len() as int) == before);
                    assert forall|k: int| 0 <= k < start.len() implies after[k] == start[k] by {
                        assert(after.take(before.len() as int)[k] == after[k]);
                        assert(before.take(start.len() as int)[k] == before[k]);
                    }
                }
                assert forall|k: int| 0 <= k < i + 1 implies #[trigger] added_ok(
                    start,
                    after,
                    claims,
                    k,
                ) by {
                    if k < i {
                        assert(added_ok(start, before, claims, k));
                        let m = meta_of(start, claims, k);
                        assert(after.take(before.len() as int)[m.multiplier_id as int]
                            == after[m.multiplier_id as int]);
                        if m.projected_id is Some {
                            assert(after.take(before.len() as int)[m.projected_id->0 as int]
                                == after[m.projected_id->0 as int]);
                        }
                    }
                }
            }
            i += 1;
        }
        Ok(metas)
    }

    /// Turns one claim on a shifted or packed oracle into a sumcheck
    /// instance: the evaluations of the projection become its witness, and
    /// the claim that projection times multiplier sums to the claimed
    /// value joins the builder of its arity.
    fn process_sumcheck(
        &mut self,
        evalcheck_claim: &EvalcheckMultilinearClaim<F>,
        meta: ProjectedBivariateMeta,
        projected: Option<Vec<F>>,
    ) -> (r: Result<(), Error>)
        requires
            meta.projected_id is Some ==> projected is Some,
        ensures
            r is Ok,
            final(self).same_but_products(old(self)),
            final(self).builders_spec() == add_to_builders(
                old(self).builders_spec(),
                meta.projected_n_vars as nat,
                sumcheck_of(meta, evalcheck_claim@),
            ),
            match meta.projected_id {
                Some(pid) => column_of(final(self).columns_spec(), pid) == Some(projected->0@)
                    && forall|other: OracleId|
                    other != pid ==> column_of(final(self).columns_spec(), other) == column_of(
                        old(self).columns_spec(),
                        other,
                    ),
                None => final(self).columns_spec() == old(self).columns_spec(),
            },
    {
        match meta.projected_id {
            Some(pid) => {
                match projected {
                    Some(column) => {
                        self.witness_index.update_multilin_poly(pid, column);
                    },
                    None => {},
                }
            },
            None => {},
        }
        add_bivariate_sumcheck_to_constraints(
            meta,
            &mut self.new_sumchecks_constraints,
            meta.projected_n_vars,
            evalcheck_claim.eval,
        );
        Ok(())
    }

    /// Turns the claims on shifted and packed oracles that wait for it
    /// into sumcheck instances, claim after claim; none waits afterwards.
    fn process_sumchecks(
        &mut self,
        metas: &Vec<ProjectedBivariateMeta>,
        projected_mle: Vec<Option<Vec<F>>>,
        Ghost(start): Ghost<Seq<MultilinearPolyOracle<F>>>,
    ) -> (r: Result<(), Error>)
        requires
            metas@.len() == old(self).bivariate_spec().len(),
            projected_mle@.len() == metas@.len(),
            forall|i: int|
                0 <= i < metas@.len() ==> (#[trigger] metas@[i]) == meta_of(
                    start,
                    old(self).bivariate_spec(),
                    i,
                ),
            forall|i: int|
                0 <= i < metas@.len() ==> ((#[trigger] metas@[i]).projected_id is Some ==> (
                projected_mle@[i] matches Some(mle) && mle@ == projected_column(
                    start,
                    old(self).columns_spec(),
                    old(self).bivariate_spec()[i],
                ))),
            forall|id: OracleId|
                (#[trigger] column_of(old(self).columns_spec(), id)) is Some ==> id < start.len(),
            base_of(start, old(self).bivariate_spec(), old(self).bivariate_spec().len())
                <= usize::MAX,
        ensures
            r is Ok,
            final(self).oracles == old(self).oracles,
            final(self).committed_eval_claims == old(self).committed_eval_claims,
            final(self).memoized_queries == old(self).memoized_queries,
            final(self).finalized_proofs == old(self).finalized_proofs,
            final(self).claims_queue == old(self).claims_queue,
            final(self).incomplete_proof_claims == old(self).incomplete_proof_claims,
            final(self).incomplete_order == old(self).incomplete_order,
            final(self).claims_without_evals == old(self).claims_without_evals,
            final(self).claims_without_evals_dedup == old(self).claims_without_evals_dedup,
            final(self).projected_bivariate_claims@.len() == 0,
            final(self).builders_spec() == builders_after(
                start,
                old(self).builders_spec(),
                old(self).bivariate_spec(),
                old(self).bivariate_spec().len(),
            ),
            columns_extended(
                start,
                old(self).columns_spec(),
                final(self).columns_spec(),
                old(self).bivariate_spec(),
                old(self).bivariate_spec().len(),
            ),
    {
        let ghost claims = self.bivariate_spec();
        let ghost columns = self.columns_spec();
        let ghost builders = self.builders_spec();
        let mut batch: Vec<EvalcheckMultilinearClaim<F>> = Vec::new();
        core::mem::swap(&mut batch, &mut self.projected_bivariate_claims);
        let mut i: usize = 0;
        while i < batch.len()
            invariant
                i <= batch@.len(),
                claims == claims_view(batch@),
                columns == old(self).columns_spec(),
                builders == old(self).builders_spec(),
                metas@.len() == batch@.len(),
                projected_mle@.len() == metas@.len(),
                forall|k: int|
                    0 <= k < metas@.len() ==> (#[trigger] metas@[k]) == meta_of(start, claims, k),
                forall|k: int|
                    0 <= k < metas@.len() ==> ((#[trigger] metas@[k]).projected_id is Some ==> (
                    projected_mle@[k] matches Some(mle) && mle@ == projected_column(
                        start,
                        columns,
                        claims[k],
                    ))),
                forall|id: OracleId|
                    (#[trigger] column_of(columns, id)) is Some ==> id < start.len(),
                base_of(start, claims, claims.len()) <= usize::MAX,
                self.oracles == old(self).oracles,
                self.committed_eval_claims == old(self).committed_eval_claims,
                self.memoized_queries == old(self).memoized_queries,
                self.finalized_proofs == old(self).finalized_proofs,
                self.claims_queue == old(self).claims_queue,
                self.incomplete_proof_claims == old(self).incomplete_proof_claims,
                self.incomplete_order == old(self).incomplete_order,
                self.claims_without_evals == old(self).claims_without_evals,
                self.claims_without_evals_dedup == old(self).claims_without_evals_dedup,
                self.projected_bivariate_claims@.len() == 0,
                self.builders_spec() == builders_after(start, builders, claims, i as nat),
                columns_extended(start, columns, self.columns_spec(), claims, i as nat),
            decreases batch@.len() - i,
        {
            let ghost before = self.columns_spec();
            let meta = metas[i];
            let projected = match &projected_mle[i] {
                Some(column) => Some(clone_point(column)),
                None => None,
            };
            let ghost given = projected;
            proof {
                assert(batch@[i as int]@ == claims[i as int]);
                assert(metas@[i as int] == meta_of(start, claims, i as int));
                lemma_base_of_grows(start, claims, i as nat, claims.len());
                if meta.projected_id is Some {
                    assert(projected_mle@[i as int] matches Some(mle) && mle@ == projected_column(
                        start,
                        columns,
                        claims[i as int],
                    ));
                    assert(given->0@ == projected_column(start, columns, claims[i as int]));
                }
            }
            match self.process_sumcheck(&batch[i], meta, projected) {
                Ok(()) => {},
                Err(e) => {
                    return Err(e);
                },
            }
            proof {
                let after = self.columns_spec();
                assert forall|k: int| 0 <= k < i + 1 implies ((#[trigger] meta_of(
                    start,
                    claims,
                    k,
                )).projected_id matches Some(pid) ==> column_of(after, pid) == Some(
                    projected_column(start, columns, claims[k]),
                )) by {
                    if k < i && meta_of(start, claims, k).projected_id is Some {
                        lemma_base_of_grows(start, claims, k as nat, i as nat);
                        lemma_base_of_grows(start, claims, k as nat, claims.len());
                        assert(meta_of(start, claims, k).projected_id->0 < base_of(
                            start,
                            claims,
                            i as nat,
                        ));
                        assert(column_of(before, meta_of(start, claims, k).projected_id->0) == Some(
                            projected_column(start, columns, claims[k]),
                        ));
                        if meta.projected_id is Some {
                            assert(meta.projected_id->0 == base_of(start, claims, i as nat));
                        }
                        assert(column_of(after, meta_of(start, claims, k).projected_id->0)
                            == column_of(before, meta_of(start, claims, k).projected_id->0));
                    } else if k == i {
                        if meta.projected_id is Some {
                            assert(column_of(after, meta.projected_id->0) == Some(given->0@));
                        }
                    }
                }
                assert forall|id: OracleId|
                    id >= start.len() && (#[trigger] column_of(after, id)) is Some implies exists|
                    k: int,
                |
                    0 <= k < i + 1 && (#[trigger] meta_of(start, claims, k)).projected_id == Some(
                        id,
                    ) by {
                    if meta.projected_id == Some(id) {
                        assert(meta_of(start, claims, i as int).projected_id == Some(id));
                    } else {
                        assert(column_of(before, id) is Some);
                        let k = choose|k: int|
                            0 <= k < i && (#[trigger] meta_of(start, claims, k)).projected_id
                                == Some(id);
                        assert(meta_of(start, claims, k).projected_id == Some(id));
                    }
                }
            }
            i += 1;
        }
        Ok(())
    }

    /// The bivariate materialization: every claim on a shifted or packed
    /// oracle that waits for it becomes a sumcheck instance. The oracles of
    /// the instances are added first, claim after claim; the evaluations of
    /// the projections are then computed in parallel; at last the witness
    /// and the builders take them in.
    fn materialize(&mut self) -> (r: Result<(), Error>)
        requires
            old(self).inv_flight(Seq::empty()),
        ensures
            match r {
                Ok(()) => {
                    &&& final(self).inv_flight(Seq::empty())
                    &&& final(self).state() == old(self).state()
                    &&& final(self).committed_spec() == old(self).committed_spec()
                    &&& final(self).bivariate_spec().len() == 0
                    &&& projectable(
                        old(self).oracles_spec(),
                        old(self).columns_spec(),
                        old(self).bivariate_spec(),
                    )
                    &&& oracles_extended(
                        old(self).oracles_spec(),
                        final(self).oracles_spec(),
                        old(self).bivariate_spec(),
                        old(self).bivariate_spec().len(),
                    )
                    &&& columns_extended(
                        old(self).oracles_spec(),
                        old(self).columns_spec(),
                        final(self).columns_spec(),
                        old(self).bivariate_spec(),
                        old(self).bivariate_spec().len(),
                    )
                    &&& final(self).builders_spec() == builders_after(
                        old(self).oracles_spec(),
                        old(self).builders_spec(),
                        old(self).bivariate_spec(),
                        old(self).bivariate_spec().len(),
                    )
                },
                Err(e) => reports_first_unprojectable(
                    old(self).oracles_spec(),
                    old(self).columns_spec(),
                    old(self).bivariate_spec(),
                    e,
                ),
            },
    {
        let ghost start = self.oracles_spec();
        let ghost columns = self.columns_spec();
        let ghost claims = self.bivariate_spec();
        let ghost st = self.state();
        let ghost n = claims.len();
        let metas = match self.bivariate_metas() {
            Ok(metas) => metas,
            Err(e) => {
                return Err(e);
            },
        };
        let ghost grown = self.oracles_spec();
        proof {
            assert(self.columns_spec() == columns);
            assert(self.bivariate_spec() == claims);
            assert(extends(start, grown)) by {
                lemma_base_of_grows(start, claims, 0, n);
            }
            assert forall|i: int| 0 <= i < metas@.len() implies meta_ready(
                grown,
                #[trigger] metas@[i],
            ) && meta_column_fits(grown, columns, metas@[i]) by {
                let claim = claims[i];
                assert(metas@[i] == meta_of(start, claims, i));
                assert(added_ok(start, grown, claims, i));
                assert(claim_ok(start, claim));
                assert(oracle_fits(start, claim.id as int));
                let inner = bivariate_inner(start[claim.id as int].variant);
                assert(grown.take(start.len() as int)[inner as int] == grown[inner as int]);
                if column_of(columns, inner) is Some {
                    assert(witness_fits(start, columns));
                }
            }
        }
        let projected_mle = match calculate_projected_mles(
            &metas,
            &mut self.memoized_queries,
            &self.oracles,
            &self.witness_index,
        ) {
            Ok(projected_mle) => projected_mle,
            Err(e) => {
                proof {
                    let i = choose|i: int| #[trigger]
                        first_unready(columns, metas@, i) && e == Error::Witness(
                            WitnessError::MissingWitness { id: metas@[i].inner_id },
                        );
                    assert(metas@[i] == meta_of(start, claims, i));
                    assert forall|j: int| 0 <= j < i implies projectable_one(
                        start,
                        columns,
                        #[trigger] claims[j],
                    ) by {
                        assert(meta_projectable(columns, metas@[j]));
                        assert(metas@[j] == meta_of(start, claims, j));
                    }
                    assert(first_unprojectable(start, columns, claims, i));
                }
                return Err(e);
            },
        };
        proof {
            assert forall|i: int| 0 <= i < metas@.len() implies ((
            #[trigger] metas@[i]).projected_id is Some ==> (projected_mle@[i] matches Some(mle)
                && mle@ == projected_column(start, columns, claims[i]))) by {
                assert(projected_mle_result(grown, columns, metas@[i], Ok(projected_mle@[i])));
                assert(metas@[i] == meta_of(start, claims, i));
                assert(added_ok(start, grown, claims, i));
            }
            assert forall|i: int| 0 <= i < claims.len() implies projectable_one(
                start,
                columns,
                #[trigger] claims[i],
            ) by {
                assert(projected_mle_result(grown, columns, metas@[i], Ok(projected_mle@[i])));
                assert(metas@[i] == meta_of(start, claims, i));
            }
            assert forall|id: OracleId|
                (#[trigger] column_of(columns, id)) is Some implies id < start.len() by {
                assert(witness_fits(start, columns));
            }
            assert(self.state() == st);
            assert(grown.len() == base_of(start, claims, n));
            assert(self.oracles.oracles.len() == grown.len());
        }
        match self.process_sumchecks(&metas, projected_mle, Ghost(start)) {
            Ok(()) => {},
            Err(e) => {
                return Err(e);
            },
        }
        proof {
            let after = self.columns_spec();
            assert(self.state() == st);
            lemma_extension_keeps_inv(start, grown, st, Seq::empty());
            assert(self.order_matches());
            assert(claims_view(self.projected_bivariate_claims@) =~= Seq::empty());
            assert forall|i: int| 0 <= i < self.committed_spec().len() implies claim_ok(
                grown,
                #[trigger] self.committed_spec()[i],
            ) by {
                assert(claim_ok(start, old(self).committed_spec()[i]));
                lemma_extension_keeps_children(start, grown, self.committed_spec()[i].key());
            }
            assert forall|id: OracleId| (#[trigger] column_of(after, id)) is Some implies id
                < grown.len() && column_of(after, id)->0.len() == pow2(
                grown[id as int].n_vars as nat,
            ) by {
                if id < start.len() {
                    assert(column_of(after, id) == column_of(columns, id));
                    assert(witness_fits(start, columns));
                    assert(grown.take(start.len() as int)[id as int] == grown[id as int]);
                } else {
                    let i = choose|i: int|
                        0 <= i < n && (#[trigger] meta_of(start, claims, i)).projected_id == Some(
                            id,
                        );
                    assert(added_ok(start, grown, claims, i));
                    assert(column_of(after, id) == Some(projected_column(start, columns, claims[i])));
                }
            }
            assert(self.parts_wf());
        }
        Ok(())
    }

    /// The proofs under which the claims are finalized, claim by claim.
    fn finalized_proofs_of(&self, evalcheck_claims: &Vec<EvalcheckMultilinearClaim<F>>) -> (proofs:
        Vec<EvalcheckProof<F>>)
        requires
            self.finalized_proofs.wf(),
            forall|i: int|
                0 <= i < evalcheck_claims@.len() ==> self.state().finalized.contains_key(
                    (#[trigger] claims_view(evalcheck_claims@)[i]).key(),
                ),
        ensures
            proofs_view(proofs@) == proofs_of(
                self.state().finalized,
                claims_view(evalcheck_claims@),
            ),
    {
        let ghost target = proofs_of(self.state().finalized, claims_view(evalcheck_claims@));
        let mut proofs: Vec<EvalcheckProof<F>> = Vec::new();
        let mut i: usize = 0;
        while i < evalcheck_claims.len()
            invariant
                i <= evalcheck_claims@.len(),
                self.finalized_proofs.wf(),
                target == proofs_of(self.state().finalized, claims_view(evalcheck_claims@)),
                forall|k: int|
                    0 <= k < evalcheck_claims@.len() ==> self.state().finalized.contains_key(
                        (#[trigger] claims_view(evalcheck_claims@)[k]).key(),
                    ),
                proofs_view(proofs@) == target.take(i as int),
            decreases evalcheck_claims@.len() - i,
        {
            let claim = &evalcheck_claims[i];
            assert(self.state().finalized.contains_key(claims_view(evalcheck_claims@)[i as int].key()));
            let entry = self.finalized_proofs.get(claim.id, &claim.eval_point).unwrap();
            let ghost prior = proofs@;
            proofs.push(entry.1.duplicate());
            proof {
                assert(proofs_view(proofs@) =~= proofs_view(prior).push(entry.1@));
                assert(target.take(i + 1) =~= target.take(i as int).push(target[i as int]));
            }
            i += 1;
        }
        assert(target.take(evalcheck_claims@.len() as int) =~= target);
        proofs
    }
}

} // verus!
