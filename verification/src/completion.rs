use vstd::prelude::*;
use crate::evalcheck::{ClaimKey, ClaimSpec, ProofSpec};
use crate::oracle::{oracles_wf, MultilinearPolyOracle, OracleVariant};
use crate::reduction::{
    accounted, child_keys, children_finalized, key_ok, leaf_proof, lemma_child_keys_ok, pending_ok,
    state_inv, ProverState,
};
use crate::rounds::quiescent;

verus! {

/// The proof of a claim about an oracle of the given kind, put together
/// from the values and proofs of its children, in the children's order.
pub open spec fn assembled<F>(
    variant: OracleVariant<F>,
    children: Seq<(F, ProofSpec<F>)>,
) -> ProofSpec<F> {
    match variant {
        OracleVariant::Repeating { .. } => ProofSpec::Repeating(Box::new(children[0].1)),
        OracleVariant::Projected { .. } => children[0].1,
        OracleVariant::LinearCombination { .. } => ProofSpec::LinearCombination {
            subproofs: children,
        },
        OracleVariant::ZeroPadded { .. } => ProofSpec::ZeroPadded(
            children[0].0,
            Box::new(children[0].1),
        ),
        _ => leaf_proof(variant),
    }
}

/// The proof of the claim at `key`, put together from the entries that
/// the table holds for its children.
pub open spec fn assembled_from<F>(
    oracles: Seq<MultilinearPolyOracle<F>>,
    table: Map<ClaimKey<F>, (F, ProofSpec<F>)>,
    key: ClaimKey<F>,
) -> ProofSpec<F> {
    let kids = child_keys(oracles, key);
    assembled(oracles[key.0 as int].variant, Seq::new(kids.len(), |j: int| table[kids[j]]))
}

/// The value under which the claim at `key` is or will be finalized: the
/// one in the table, and else the one of the pending claim.
pub open spec fn entry_eval<F>(st: ProverState<F>, key: ClaimKey<F>) -> F {
    if st.finalized.contains_key(key) {
        st.finalized[key].0
    } else {
        st.pending[key].eval
    }
}

/// The proof under which the claim at `key` is or will be finalized: the
/// one in the table, and else the one put together from its children's.
pub open spec fn built_proof<F>(
    oracles: Seq<MultilinearPolyOracle<F>>,
    st: ProverState<F>,
    key: ClaimKey<F>,
) -> ProofSpec<F>
    decreases key.0, 1int,
{
    if st.finalized.contains_key(key) {
        st.finalized[key].1
    } else {
        assembled(oracles[key.0 as int].variant, built_children(oracles, st, key))
    }
}

/// The values and proofs under which the children of the claim at `key`
/// are or will be finalized.
pub open spec fn built_children<F>(
    oracles: Seq<MultilinearPolyOracle<F>>,
    st: ProverState<F>,
    key: ClaimKey<F>,
) -> Seq<(F, ProofSpec<F>)>
    decreases key.0, 0int,
{
    let kids = child_keys(oracles, key);
    Seq::new(
        kids.len(),
        |j: int|
            if 0 <= j < kids.len() && kids[j].0 < key.0 {
                (entry_eval(st, kids[j]), built_proof(oracles, st, kids[j]))
            } else {
                (entry_eval(st, kids[j]), ProofSpec::Transparent)
            },
    )
}

/// The finalized table once every pending claim is completed.
pub open spec fn completed<F>(
    oracles: Seq<MultilinearPolyOracle<F>>,
    st: ProverState<F>,
) -> Map<ClaimKey<F>, (F, ProofSpec<F>)> {
    Map::new(
        |k: ClaimKey<F>| st.finalized.contains_key(k) || st.pending.contains_key(k),
        |k: ClaimKey<F>| (entry_eval(st, k), built_proof(oracles, st, k)),
    )
}

/// The state after the completion phase: every pending claim is finalized.
pub open spec fn complete_all<F>(
    oracles: Seq<MultilinearPolyOracle<F>>,
    st: ProverState<F>,
) -> ProverState<F> {
    ProverState { finalized: completed(oracles, st), pending: Map::empty(), ..st }
}

/// Whether a table lies between the finalized table of `st` and its
/// completion.
pub open spec fn partly_completed<F>(
    oracles: Seq<MultilinearPolyOracle<F>>,
    st: ProverState<F>,
    table: Map<ClaimKey<F>, (F, ProofSpec<F>)>,
) -> bool {
    &&& forall|k: ClaimKey<F>| #[trigger]
        st.finalized.contains_key(k) ==> table.contains_key(k)
    &&& forall|k: ClaimKey<F>| #[trigger]
        table.contains_key(k) ==> completed(oracles, st).contains_key(k) && table[k] == completed(
            oracles,
            st,
        )[k]
}

/// Where the children of a pending claim are in a partly completed table,
/// the proof put together from the table is the one that the completion
/// assigns to the claim.
pub proof fn lemma_assembled_is_built<F>(
    oracles: Seq<MultilinearPolyOracle<F>>,
    st: ProverState<F>,
    table: Map<ClaimKey<F>, (F, ProofSpec<F>)>,
    key: ClaimKey<F>,
)
    requires
        oracles_wf(oracles),
        partly_completed(oracles, st, table),
        st.pending.contains_key(key),
        pending_ok(oracles, st, Seq::empty(), key),
        children_finalized(oracles, table, key),
    ensures
        assembled_from(oracles, table, key) == built_proof(oracles, st, key),
        completed(oracles, st)[key] == (st.pending[key].eval, built_proof(oracles, st, key)),
{
    let kids = child_keys(oracles, key);
    let from_table = Seq::new(kids.len(), |j: int| table[kids[j]]);
    let from_spec = built_children(oracles, st, key);
    assert forall|j: int| 0 <= j < kids.len() implies from_table[j] == from_spec[j] by {
        lemma_child_keys_ok(oracles, key, j);
        assert(table.contains_key(kids[j]));
        assert(table[kids[j]] == completed(oracles, st)[kids[j]]);
    }
    assert(from_table =~= from_spec);
}

/// Among the claims of a nonempty sequence one has the least oracle id.
pub proof fn lemma_least_id<F>(claims: Seq<ClaimSpec<F>>) -> (m: int)
    requires
        claims.len() > 0,
    ensures
        0 <= m < claims.len(),
        forall|j: int| 0 <= j < claims.len() ==> claims[m].id <= (#[trigger] claims[j]).id,
    decreases claims.len(),
{
    if claims.len() == 1 {
        0
    } else {
        let rest = claims.drop_last();
        let m = lemma_least_id(rest);
        let last = claims.len() - 1;
        assert forall|j: int| 0 <= j < last implies rest[j] == claims[j] by {}
        if claims[last].id < claims[m].id {
            assert forall|j: int| 0 <= j < claims.len() implies claims[last].id <= (
            #[trigger] claims[j]).id by {
                if j < last {
                    assert(rest[j] == claims[j]);
                }
            }
            last
        } else {
            assert forall|j: int| 0 <= j < claims.len() implies claims[m].id <= (
            #[trigger] claims[j]).id by {
                if j < last {
                    assert(rest[j] == claims[j]);
                }
            }
            m
        }
    }
}

/// Once the engine rests, completing every pending claim keeps the
/// invariant.
pub proof fn lemma_complete_all_inv<F>(
    oracles: Seq<MultilinearPolyOracle<F>>,
    st: ProverState<F>,
)
    requires
        oracles_wf(oracles),
        state_inv(oracles, st, Seq::empty()),
        quiescent(st),
    ensures
        state_inv(oracles, complete_all(oracles, st), Seq::empty()),
{
    let next = complete_all(oracles, st);
    let none = Seq::<ClaimSpec<F>>::empty();
    assert forall|k: ClaimKey<F>| #[trigger] next.finalized.contains_key(k) implies key_ok(
        oracles,
        k,
    ) && children_finalized(oracles, next.finalized, k) by {
        if st.finalized.contains_key(k) {
            assert(children_finalized(oracles, st.finalized, k));
        } else {
            assert(pending_ok(oracles, st, none, k));
            assert forall|j: int| 0 <= j < child_keys(oracles, k).len() implies next.finalized.contains_key(
                #[trigger] child_keys(oracles, k)[j],
            ) by {
                let ck = child_keys(oracles, k)[j];
                assert(accounted(st, none, ck) || st.needs_eval.contains(ck));
            }
        }
    }
    assert forall|k: ClaimKey<F>| #[trigger] next.dedup.contains(k) implies accounted(
        next,
        none,
        k,
    ) by {
        assert(accounted(st, none, k));
    }
}

} // verus!
