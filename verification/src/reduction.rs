use vstd::prelude::*;
use crate::evalcheck::{ClaimKey, ClaimSpec, ProofSpec};
use crate::field::Field;
use crate::oracle::{
    oracle_fits, oracles_wf, MultilinearPolyOracle, OracleVariant, ProjectionVariant,
};

verus! {

/// The point at which the inner polynomial of a projection is evaluated:
/// the fixed values go before the parent's point where the first variables
/// are fixed, and after it where the last variables are fixed.
pub open spec fn projected_point<F>(
    point: Seq<F>,
    values: Seq<F>,
    variant: ProjectionVariant,
) -> Seq<F> {
    match variant {
        ProjectionVariant::FirstVars => values + point,
        ProjectionVariant::LastVars => point + values,
    }
}

/// The value claimed of the only polynomial of a linear combination
/// `offset + coeff * p`, given the value claimed of the combination.
pub open spec fn single_term_eval<F: Field>(eval: F, offset: F, coeff: F) -> F {
    eval.sub_spec(offset).mul_spec(coeff.invert_or_zero_spec())
}

/// Whether the reduction ends at oracles of this kind.
pub open spec fn is_leaf<F>(variant: OracleVariant<F>) -> bool {
    variant is Committed || variant is Transparent || variant is Shifted || variant is Packed
}

/// The proof of a claim about a leaf oracle.
pub open spec fn leaf_proof<F>(variant: OracleVariant<F>) -> ProofSpec<F> {
    match variant {
        OracleVariant::Committed => ProofSpec::Committed,
        OracleVariant::Shifted { .. } => ProofSpec::Shifted,
        OracleVariant::Packed { .. } => ProofSpec::Packed,
        _ => ProofSpec::Transparent,
    }
}

/// Whether a claim about an oracle of this kind is rewritten into exactly
/// one claim whose value follows from the parent's. The other composite
/// kinds need the witness to value their children.
pub open spec fn rewrites<F: Field>(variant: OracleVariant<F>) -> bool {
    match variant {
        OracleVariant::Repeating { .. } => true,
        OracleVariant::Projected { .. } => true,
        OracleVariant::LinearCombination { offset, terms } => terms@.len() == 1 && terms@[0].1
            != F::zero(),
        _ => false,
    }
}

/// The value of the one child claim of a rewritten claim.
pub open spec fn rewritten_eval<F: Field>(variant: OracleVariant<F>, eval: F) -> F {
    match variant {
        OracleVariant::LinearCombination { offset, terms } => single_term_eval(
            eval,
            offset,
            terms@[0].1,
        ),
        _ => eval,
    }
}

/// The keys of the claims that a claim at `key` depends on, in the order of
/// the oracle's children.
pub open spec fn child_keys<F>(
    oracles: Seq<MultilinearPolyOracle<F>>,
    key: ClaimKey<F>,
) -> Seq<ClaimKey<F>> {
    match oracles[key.0 as int].variant {
        OracleVariant::Repeating { inner, log_count } => seq![
            (inner, key.1.take(oracles[inner as int].n_vars as int)),
        ],
        OracleVariant::Projected { inner, values, variant } => seq![
            (inner, projected_point(key.1, values@, variant)),
        ],
        OracleVariant::LinearCombination { offset, terms } => Seq::new(
            terms@.len(),
            |j: int| (terms@[j].0, key.1),
        ),
        OracleVariant::ZeroPadded { inner } => seq![
            (inner, key.1.take(oracles[inner as int].n_vars as int)),
        ],
        _ => Seq::empty(),
    }
}

/// Whether the key names an oracle of the set at a point of its arity.
pub open spec fn key_ok<F>(oracles: Seq<MultilinearPolyOracle<F>>, key: ClaimKey<F>) -> bool {
    key.0 < oracles.len() && key.1.len() == oracles[key.0 as int].n_vars
}

/// Whether the claim names an oracle of the set at a point of its arity.
pub open spec fn claim_ok<F>(oracles: Seq<MultilinearPolyOracle<F>>, claim: ClaimSpec<F>) -> bool {
    key_ok(oracles, claim.key())
}

/// The children of a valid key are valid keys of earlier oracles.
pub proof fn lemma_child_keys_ok<F>(
    oracles: Seq<MultilinearPolyOracle<F>>,
    key: ClaimKey<F>,
    j: int,
)
    requires
        oracles_wf(oracles),
        key_ok(oracles, key),
        0 <= j < child_keys(oracles, key).len(),
    ensures
        key_ok(oracles, child_keys(oracles, key)[j]),
        child_keys(oracles, key)[j].0 < key.0,
{
    assert(oracle_fits(oracles, key.0 as int));
    match oracles[key.0 as int].variant {
        OracleVariant::LinearCombination { offset, terms } => {
            assert(terms@[j].0 < key.0);
        },
        _ => {},
    }
}

/// The bookkeeping of the reduction engine.
#[verifier::reject_recursive_types(F)]
pub struct ProverState<F> {
    /// The finalized claims with their values and proofs.
    pub finalized: Map<ClaimKey<F>, (F, ProofSpec<F>)>,
    /// The claims whose proofs wait for their children's.
    pub pending: Map<ClaimKey<F>, ClaimSpec<F>>,
    /// The claims ready to be reduced.
    pub queue: Seq<ClaimSpec<F>>,
    /// The keys that need a value from the witness.
    pub needs_eval: Seq<ClaimKey<F>>,
    /// The keys that were enqueued or valued already.
    pub dedup: Set<ClaimKey<F>>,
}

/// The state of an engine that has seen no claim.
pub open spec fn empty_state<F>() -> ProverState<F> {
    ProverState {
        finalized: Map::empty(),
        pending: Map::empty(),
        queue: Seq::empty(),
        needs_eval: Seq::empty(),
        dedup: Set::empty(),
    }
}

/// The reduction rule: what one claim does to the state.
///
/// A claim whose key is finalized or pending changes nothing. A claim
/// about a leaf is finalized with its marker. Any other claim becomes
/// pending; its one child claim joins the queue where its value follows
/// from the parent's, and else its children's keys join those that need a
/// value.
pub open spec fn reduce<F: Field>(
    oracles: Seq<MultilinearPolyOracle<F>>,
    st: ProverState<F>,
    claim: ClaimSpec<F>,
) -> ProverState<F> {
    let key = claim.key();
    let variant = oracles[claim.id as int].variant;
    if st.finalized.contains_key(key) || st.pending.contains_key(key) {
        st
    } else if is_leaf(variant) {
        ProverState { finalized: st.finalized.insert(key, (claim.eval, leaf_proof(variant))), ..st }
    } else if rewrites(variant) {
        let child = child_keys(oracles, key)[0];
        ProverState {
            pending: st.pending.insert(key, claim),
            queue: st.queue.push(
                ClaimSpec { id: child.0, point: child.1, eval: rewritten_eval(variant, claim.eval) },
            ),
            ..st
        }
    } else {
        ProverState {
            pending: st.pending.insert(key, claim),
            needs_eval: st.needs_eval + child_keys(oracles, key),
            ..st
        }
    }
}

/// The state after the first `n` of `claims` were reduced in order.
pub open spec fn reduce_prefix<F: Field>(
    oracles: Seq<MultilinearPolyOracle<F>>,
    st: ProverState<F>,
    claims: Seq<ClaimSpec<F>>,
    n: nat,
) -> ProverState<F>
    decreases n,
{
    if n == 0 {
        st
    } else {
        reduce(oracles, reduce_prefix(oracles, st, claims, (n - 1) as nat), claims[n - 1])
    }
}

/// Whether some claim of the sequence has the key.
pub open spec fn in_claims<F>(claims: Seq<ClaimSpec<F>>, key: ClaimKey<F>) -> bool {
    exists|i: int| 0 <= i < claims.len() && (#[trigger] claims[i]).key() == key
}

/// Whether the key is accounted for: finalized, pending, queued, or held
/// by a claim that is about to be reduced.
pub open spec fn accounted<F>(
    st: ProverState<F>,
    flight: Seq<ClaimSpec<F>>,
    key: ClaimKey<F>,
) -> bool {
    st.finalized.contains_key(key) || st.pending.contains_key(key) || in_claims(st.queue, key)
        || in_claims(flight, key)
}

/// Whether every child of the key is finalized.
pub open spec fn children_finalized<F>(
    oracles: Seq<MultilinearPolyOracle<F>>,
    finalized: Map<ClaimKey<F>, (F, ProofSpec<F>)>,
    key: ClaimKey<F>,
) -> bool {
    forall|j: int|
        0 <= j < child_keys(oracles, key).len() ==> finalized.contains_key(
            #[trigger] child_keys(oracles, key)[j],
        )
}

/// Whether every child of the key is accounted for or waits for a value.
pub open spec fn children_accounted<F>(
    oracles: Seq<MultilinearPolyOracle<F>>,
    st: ProverState<F>,
    flight: Seq<ClaimSpec<F>>,
    key: ClaimKey<F>,
) -> bool {
    forall|j: int|
        0 <= j < child_keys(oracles, key).len() ==> accounted(
            st,
            flight,
            #[trigger] child_keys(oracles, key)[j],
        ) || st.needs_eval.contains(child_keys(oracles, key)[j])
}

/// What holds of the finalized table whatever the engine is doing: its
/// keys are valid and it is closed under children.
pub open spec fn finalized_inv<F>(
    oracles: Seq<MultilinearPolyOracle<F>>,
    finalized: Map<ClaimKey<F>, (F, ProofSpec<F>)>,
) -> bool {
    forall|k: ClaimKey<F>| #[trigger]
        finalized.contains_key(k) ==> key_ok(oracles, k) && children_finalized(
            oracles,
            finalized,
            k,
        )
}

/// What holds of a pending claim: it is filed under its own key, its
/// oracle is composite, it is not finalized, and its children are
/// accounted for.
pub open spec fn pending_ok<F>(
    oracles: Seq<MultilinearPolyOracle<F>>,
    st: ProverState<F>,
    flight: Seq<ClaimSpec<F>>,
    k: ClaimKey<F>,
) -> bool {
    &&& key_ok(oracles, k)
    &&& st.pending[k].key() == k
    &&& !is_leaf(oracles[k.0 as int].variant)
    &&& !st.finalized.contains_key(k)
    &&& children_accounted(oracles, st, flight, k)
}

/// The invariant of the engine while the claims of `flight` are taken out
/// of the queue and about to be reduced.
pub open spec fn state_inv<F>(
    oracles: Seq<MultilinearPolyOracle<F>>,
    st: ProverState<F>,
    flight: Seq<ClaimSpec<F>>,
) -> bool {
    &&& finalized_inv(oracles, st.finalized)
    &&& forall|k: ClaimKey<F>| #[trigger]
        st.pending.contains_key(k) ==> pending_ok(oracles, st, flight, k)
    &&& forall|i: int| 0 <= i < st.queue.len() ==> claim_ok(oracles, #[trigger] st.queue[i])
    &&& forall|i: int| 0 <= i < flight.len() ==> claim_ok(oracles, #[trigger] flight[i])
    &&& forall|i: int| 0 <= i < st.needs_eval.len() ==> key_ok(oracles, #[trigger] st.needs_eval[i])
    &&& forall|k: ClaimKey<F>| #[trigger] st.dedup.contains(k) ==> accounted(st, flight, k)
}

/// An accounted-for key stays accounted for when the first claim in
/// flight is reduced.
proof fn lemma_accounted_after_reduce<F: Field>(
    oracles: Seq<MultilinearPolyOracle<F>>,
    st: ProverState<F>,
    flight: Seq<ClaimSpec<F>>,
    k: ClaimKey<F>,
)
    requires
        flight.len() > 0,
        accounted(st, flight, k),
    ensures
        accounted(reduce(oracles, st, flight[0]), flight.drop_first(), k),
{
    let next = reduce(oracles, st, flight[0]);
    let rest = flight.drop_first();
    if in_claims(st.queue, k) {
        let i = choose|i: int| 0 <= i < st.queue.len() && (#[trigger] st.queue[i]).key() == k;
        assert(next.queue[i] == st.queue[i]);
    } else if in_claims(flight, k) && !st.finalized.contains_key(k) && !st.pending.contains_key(k) {
        let i = choose|i: int| 0 <= i < flight.len() && (#[trigger] flight[i]).key() == k;
        if i > 0 {
            assert(rest[i - 1] == flight[i]);
        }
    }
}

/// Reducing the first claim in flight keeps the invariant.
pub proof fn lemma_reduce_keeps_inv<F: Field>(
    oracles: Seq<MultilinearPolyOracle<F>>,
    st: ProverState<F>,
    flight: Seq<ClaimSpec<F>>,
)
    requires
        oracles_wf(oracles),
        flight.len() > 0,
        state_inv(oracles, st, flight),
    ensures
        state_inv(oracles, reduce(oracles, st, flight[0]), flight.drop_first()),
{
    let claim = flight[0];
    let key = claim.key();
    let next = reduce(oracles, st, claim);
    let rest = flight.drop_first();
    let kids = child_keys(oracles, key);
    assert(claim_ok(oracles, claim));
    assert forall|k: ClaimKey<F>| #[trigger] next.finalized.contains_key(k) implies key_ok(
        oracles,
        k,
    ) && children_finalized(oracles, next.finalized, k) by {
        if st.finalized.contains_key(k) {
            assert(children_finalized(oracles, st.finalized, k));
        }
    }
    assert forall|k: ClaimKey<F>| #[trigger] next.pending.contains_key(k) implies pending_ok(
        oracles,
        next,
        rest,
        k,
    ) by {
        if st.pending.contains_key(k) {
            assert(pending_ok(oracles, st, flight, k));
            assert forall|j: int| 0 <= j < child_keys(oracles, k).len() implies accounted(
                next,
                rest,
                #[trigger] child_keys(oracles, k)[j],
            ) || next.needs_eval.contains(child_keys(oracles, k)[j]) by {
                let ck = child_keys(oracles, k)[j];
                if accounted(st, flight, ck) {
                    lemma_accounted_after_reduce(oracles, st, flight, ck);
                } else {
                    assert(st.needs_eval.contains(ck));
                    let i = choose|i: int| 0 <= i < st.needs_eval.len() && st.needs_eval[i] == ck;
                    assert(next.needs_eval[i] == ck);
                }
            }
        } else {
            assert(k == key);
            assert forall|j: int| 0 <= j < kids.len() implies accounted(next, rest, #[trigger] kids[j])
                || next.needs_eval.contains(kids[j]) by {
                if rewrites(oracles[claim.id as int].variant) {
                    assert(kids.len() == 1);
                    assert(next.queue[st.queue.len() as int].key() == kids[0]);
                } else {
                    assert(next.needs_eval[st.needs_eval.len() + j] == kids[j]);
                }
            }
        }
    }
    assert forall|i: int| 0 <= i < next.queue.len() implies claim_ok(
        oracles,
        #[trigger] next.queue[i],
    ) by {
        if i < st.queue.len() {
            assert(next.queue[i] == st.queue[i]);
        } else {
            lemma_child_keys_ok(oracles, key, 0);
        }
    }
    assert forall|i: int| 0 <= i < rest.len() implies claim_ok(oracles, #[trigger] rest[i]) by {
        assert(rest[i] == flight[i + 1]);
    }
    assert forall|i: int| 0 <= i < next.needs_eval.len() implies key_ok(
        oracles,
        #[trigger] next.needs_eval[i],
    ) by {
        if i < st.needs_eval.len() {
            assert(next.needs_eval[i] == st.needs_eval[i]);
        } else {
            lemma_child_keys_ok(oracles, key, i - st.needs_eval.len());
        }
    }
    assert forall|k: ClaimKey<F>| #[trigger] next.dedup.contains(k) implies accounted(
        next,
        rest,
        k,
    ) by {
        lemma_accounted_after_reduce(oracles, st, flight, k);
    }
}

/// Whether `after` holds the oracles of `before`, in their places, and
/// perhaps more.
pub open spec fn extends<F>(
    before: Seq<MultilinearPolyOracle<F>>,
    after: Seq<MultilinearPolyOracle<F>>,
) -> bool {
    before.len() <= after.len() && after.take(before.len() as int) == before
}

/// The children of a valid key stay what they are when oracles are added.
pub proof fn lemma_extension_keeps_children<F>(
    before: Seq<MultilinearPolyOracle<F>>,
    after: Seq<MultilinearPolyOracle<F>>,
    key: ClaimKey<F>,
)
    requires
        oracles_wf(before),
        extends(before, after),
        key_ok(before, key),
    ensures
        key_ok(after, key),
        child_keys(after, key) == child_keys(before, key),
        after[key.0 as int] == before[key.0 as int],
{
    assert(after.take(before.len() as int)[key.0 as int] == after[key.0 as int]);
    assert(oracle_fits(before, key.0 as int));
    match before[key.0 as int].variant {
        OracleVariant::Repeating { inner, log_count } => {
            assert(after.take(before.len() as int)[inner as int] == after[inner as int]);
        },
        OracleVariant::ZeroPadded { inner } => {
            assert(after.take(before.len() as int)[inner as int] == after[inner as int]);
        },
        _ => {},
    }
}

/// The invariant of the engine survives the addition of oracles.
pub proof fn lemma_extension_keeps_inv<F>(
    before: Seq<MultilinearPolyOracle<F>>,
    after: Seq<MultilinearPolyOracle<F>>,
    st: ProverState<F>,
    flight: Seq<ClaimSpec<F>>,
)
    requires
        oracles_wf(before),
        extends(before, after),
        state_inv(before, st, flight),
    ensures
        state_inv(after, st, flight),
{
    assert forall|k: ClaimKey<F>| #[trigger] st.finalized.contains_key(k) implies key_ok(after, k)
        && children_finalized(after, st.finalized, k) by {
        lemma_extension_keeps_children(before, after, k);
        assert(children_finalized(before, st.finalized, k));
    }
    assert forall|k: ClaimKey<F>| #[trigger] st.pending.contains_key(k) implies pending_ok(
        after,
        st,
        flight,
        k,
    ) by {
        assert(pending_ok(before, st, flight, k));
        lemma_extension_keeps_children(before, after, k);
        assert(children_accounted(before, st, flight, k));
    }
    assert forall|i: int| 0 <= i < st.queue.len() implies claim_ok(after, #[trigger] st.queue[i]) by {
        lemma_extension_keeps_children(before, after, st.queue[i].key());
    }
    assert forall|i: int| 0 <= i < flight.len() implies claim_ok(after, #[trigger] flight[i]) by {
        lemma_extension_keeps_children(before, after, flight[i].key());
    }
    assert forall|i: int| 0 <= i < st.needs_eval.len() implies key_ok(
        after,
        #[trigger] st.needs_eval[i],
    ) by {
        lemma_extension_keeps_children(before, after, st.needs_eval[i]);
    }
}

} // verus!
