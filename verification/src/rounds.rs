use vstd::prelude::*;
use crate::error::{Error, WitnessError};
use crate::evalcheck::{ClaimKey, ClaimSpec};
use crate::field::Field;
use crate::measure::{claim_keys, keys_weight};
use crate::multilinear::evaluate_spec;
use crate::oracle::{oracles_wf, MultilinearPolyOracle};
use crate::reduction::{
    accounted, child_keys, claim_ok, in_claims, key_ok, lemma_reduce_keeps_inv, pending_ok, reduce,
    reduce_prefix, state_inv, ProverState,
};
use crate::witness::column_of;

verus! {

/// Whether neither the queue nor the keys that wait for a value hold
/// anything.
pub open spec fn quiescent<F>(st: ProverState<F>) -> bool {
    st.queue.len() == 0 && st.needs_eval.len() == 0
}

/// The state after the whole queue was taken out and reduced in order.
pub open spec fn drain<F: Field>(
    oracles: Seq<MultilinearPolyOracle<F>>,
    st: ProverState<F>,
) -> ProverState<F> {
    reduce_prefix(oracles, ProverState { queue: Seq::empty(), ..st }, st.queue, st.queue.len())
}

/// Those of the first `n` keys waiting for a value that are neither
/// finalized nor known to the dedup set nor repeated, in order.
pub open spec fn fresh_keys<F>(st: ProverState<F>, n: nat) -> Seq<ClaimKey<F>>
    decreases n,
{
    if n == 0 {
        Seq::empty()
    } else {
        let prev = fresh_keys(st, (n - 1) as nat);
        let key = st.needs_eval[n - 1];
        if st.finalized.contains_key(key) || st.dedup.contains(key) || prev.contains(key) {
            prev
        } else {
            prev.push(key)
        }
    }
}

/// Whether the witness holds a column for every key.
pub open spec fn all_valued<F>(columns: Seq<Option<Vec<F>>>, keys: Seq<ClaimKey<F>>) -> bool {
    forall|i: int| 0 <= i < keys.len() ==> column_of(columns, (#[trigger] keys[i]).0) is Some
}

/// Whether `i` is the position of the first key without a column.
pub open spec fn first_unvalued<F>(
    columns: Seq<Option<Vec<F>>>,
    keys: Seq<ClaimKey<F>>,
    i: int,
) -> bool {
    &&& 0 <= i < keys.len()
    &&& column_of(columns, keys[i].0) is None
    &&& all_valued(columns, keys.take(i))
}

/// Whether `e` reports the oracle of the first key without a column.
pub open spec fn reports_first_unvalued<F>(
    columns: Seq<Option<Vec<F>>>,
    keys: Seq<ClaimKey<F>>,
    e: Error,
) -> bool {
    exists|i: int| #[trigger]
        first_unvalued(columns, keys, i) && e == Error::Witness(
            WitnessError::MissingWitness { id: keys[i].0 },
        )
}

/// The claim that the witness makes at a key: the evaluation of the
/// oracle's column at the point.
pub open spec fn valued_claim<F: Field>(
    columns: Seq<Option<Vec<F>>>,
    key: ClaimKey<F>,
) -> ClaimSpec<F> {
    ClaimSpec {
        id: key.0,
        point: key.1,
        eval: evaluate_spec(column_of(columns, key.0)->0, key.1),
    }
}

/// The claims that the witness makes at the keys.
pub open spec fn valued_claims<F: Field>(
    columns: Seq<Option<Vec<F>>>,
    keys: Seq<ClaimKey<F>>,
) -> Seq<ClaimSpec<F>> {
    Seq::new(keys.len(), |i: int| valued_claim(columns, keys[i]))
}

/// The state in which the claims of an evaluation round are reduced: no
/// key waits any more, and the fresh keys are known to the dedup set.
pub open spec fn evaluation_base<F>(st: ProverState<F>) -> ProverState<F> {
    let fresh = fresh_keys(st, st.needs_eval.len());
    ProverState { needs_eval: Seq::empty(), dedup: st.dedup.union(fresh.to_set()), ..st }
}

/// The state after an evaluation round: the fresh keys are valued from
/// the witness and the resulting claims reduced in order. There is none
/// where the witness lacks a column for a fresh key.
pub open spec fn evaluation_round<F: Field>(
    oracles: Seq<MultilinearPolyOracle<F>>,
    columns: Seq<Option<Vec<F>>>,
    st: ProverState<F>,
) -> Option<ProverState<F>> {
    let fresh = fresh_keys(st, st.needs_eval.len());
    if all_valued(columns, fresh) {
        Some(
            reduce_prefix(
                oracles,
                evaluation_base(st),
                valued_claims(columns, fresh),
                fresh.len(),
            ),
        )
    } else {
        None
    }
}

/// One step of the engine: drain the queue where it holds claims, else
/// value the keys that wait, else rest.
pub open spec fn step<F: Field>(
    oracles: Seq<MultilinearPolyOracle<F>>,
    columns: Seq<Option<Vec<F>>>,
    st: ProverState<F>,
) -> Option<ProverState<F>> {
    if st.queue.len() > 0 {
        Some(drain(oracles, st))
    } else if st.needs_eval.len() > 0 {
        evaluation_round(oracles, columns, st)
    } else {
        Some(st)
    }
}

/// The state after `n` steps, where none of them failed.
pub open spec fn run<F: Field>(
    oracles: Seq<MultilinearPolyOracle<F>>,
    columns: Seq<Option<Vec<F>>>,
    st: ProverState<F>,
    n: nat,
) -> Option<ProverState<F>>
    decreases n,
{
    if n == 0 {
        Some(st)
    } else {
        match run(oracles, columns, st, (n - 1) as nat) {
            Some(prev) => step(oracles, columns, prev),
            None => None,
        }
    }
}

/// Whether the engine fails with `e` at the step after the first `n`: the
/// witness has no column for a key that the step has to value.
pub open spec fn fails_after<F: Field>(
    oracles: Seq<MultilinearPolyOracle<F>>,
    columns: Seq<Option<Vec<F>>>,
    st: ProverState<F>,
    n: nat,
    e: Error,
) -> bool {
    let last = run(oracles, columns, st, n);
    &&& last is Some
    &&& step(oracles, columns, last->0) is None
    &&& reports_first_unvalued(columns, fresh_keys(last->0, last->0.needs_eval.len()), e)
}

/// Taking the queue out to reduce its claims keeps the invariant.
pub proof fn lemma_start_drain<F>(oracles: Seq<MultilinearPolyOracle<F>>, st: ProverState<F>)
    requires
        state_inv(oracles, st, Seq::empty()),
    ensures
        state_inv(oracles, ProverState { queue: Seq::empty(), ..st }, st.queue),
{
    let base = ProverState { queue: Seq::empty(), ..st };
    let none = Seq::<ClaimSpec<F>>::empty();
    assert forall|k: ClaimKey<F>| #[trigger] base.pending.contains_key(k) implies pending_ok(
        oracles,
        base,
        st.queue,
        k,
    ) by {
        assert(pending_ok(oracles, st, none, k));
    }
    assert forall|k: ClaimKey<F>| #[trigger] base.dedup.contains(k) implies accounted(
        base,
        st.queue,
        k,
    ) by {
        assert(accounted(st, none, k));
    }
}

/// Every fresh key is one of the keys that waited, and every key that
/// waited is finalized, known to the dedup set, or fresh.
pub proof fn lemma_fresh_keys<F>(st: ProverState<F>, n: nat)
    requires
        n <= st.needs_eval.len(),
    ensures
        fresh_keys(st, n).len() <= n,
        forall|i: int|
            0 <= i < fresh_keys(st, n).len() ==> st.needs_eval.take(n as int).contains(
                #[trigger] fresh_keys(st, n)[i],
            ),
        forall|i: int|
            0 <= i < n ==> st.finalized.contains_key(#[trigger] st.needs_eval[i])
                || st.dedup.contains(st.needs_eval[i]) || fresh_keys(st, n).contains(
                st.needs_eval[i],
            ),
    decreases n,
{
    if n > 0 {
        lemma_fresh_keys(st, (n - 1) as nat);
        let prev = fresh_keys(st, (n - 1) as nat);
        let cur = fresh_keys(st, n);
        let key = st.needs_eval[n - 1];
        assert forall|i: int| 0 <= i < cur.len() implies st.needs_eval.take(n as int).contains(
            #[trigger] cur[i],
        ) by {
            if i < prev.len() {
                assert(cur[i] == prev[i]);
                let before = st.needs_eval.take(n - 1);
                assert(before.contains(prev[i]));
                let j = choose|j: int| 0 <= j < before.len() && before[j] == prev[i];
                assert(st.needs_eval.take(n as int)[j] == cur[i]);
            } else {
                assert(st.needs_eval.take(n as int)[n - 1] == cur[i]);
            }
        }
        assert forall|i: int| 0 <= i < n implies st.finalized.contains_key(
            #[trigger] st.needs_eval[i],
        ) || st.dedup.contains(st.needs_eval[i]) || cur.contains(st.needs_eval[i]) by {
            if i < n - 1 {
                if prev.contains(st.needs_eval[i]) {
                    let j = choose|j: int| 0 <= j < prev.len() && prev[j] == st.needs_eval[i];
                    assert(cur[j] == st.needs_eval[i]);
                }
            } else if cur.len() > prev.len() {
                assert(cur[prev.len() as int] == key);
            }
        }
    }
}

/// The fresh keys weigh no more than the keys that waited.
pub proof fn lemma_fresh_keys_weight<F>(
    oracles: Seq<MultilinearPolyOracle<F>>,
    st: ProverState<F>,
    n: nat,
)
    requires
        n <= st.needs_eval.len(),
    ensures
        keys_weight(oracles, fresh_keys(st, n)) <= keys_weight(oracles, st.needs_eval.take(n as int)),
    decreases n,
{
    if n > 0 {
        lemma_fresh_keys_weight(oracles, st, (n - 1) as nat);
        let taken = st.needs_eval.take(n as int);
        assert(taken.drop_last() =~= st.needs_eval.take(n - 1));
        let prev = fresh_keys(st, (n - 1) as nat);
        let cur = fresh_keys(st, n);
        if cur.len() > prev.len() {
            assert(cur.drop_last() =~= prev);
        }
    }
}

/// Starting an evaluation round keeps the invariant: with the queue
/// empty, every child that waited is finalized, pending, or about to be
/// valued and reduced.
pub proof fn lemma_start_evaluation<F: Field>(
    oracles: Seq<MultilinearPolyOracle<F>>,
    columns: Seq<Option<Vec<F>>>,
    st: ProverState<F>,
)
    requires
        state_inv(oracles, st, Seq::empty()),
        st.queue.len() == 0,
    ensures
        state_inv(
            oracles,
            evaluation_base(st),
            valued_claims(columns, fresh_keys(st, st.needs_eval.len())),
        ),
{
    let n = st.needs_eval.len();
    let fresh = fresh_keys(st, n);
    let base = evaluation_base(st);
    let flight = valued_claims(columns, fresh);
    let none = Seq::<ClaimSpec<F>>::empty();
    lemma_fresh_keys(st, n);
    assert(st.needs_eval.take(n as int) =~= st.needs_eval);
    assert forall|k: ClaimKey<F>| fresh.contains(k) implies in_claims(flight, k) by {
        let i = choose|i: int| 0 <= i < fresh.len() && fresh[i] == k;
        assert(flight[i].key() == k);
    }
    assert forall|k: ClaimKey<F>| #[trigger] base.pending.contains_key(k) implies pending_ok(
        oracles,
        base,
        flight,
        k,
    ) by {
        assert(pending_ok(oracles, st, none, k));
        assert forall|j: int| 0 <= j < child_keys(oracles, k).len() implies accounted(
            base,
            flight,
            #[trigger] child_keys(oracles, k)[j],
        ) || base.needs_eval.contains(child_keys(oracles, k)[j]) by {
            let ck = child_keys(oracles, k)[j];
            if !accounted(st, none, ck) {
                assert(st.needs_eval.contains(ck));
                let i = choose|i: int| 0 <= i < st.needs_eval.len() && st.needs_eval[i] == ck;
                assert(st.finalized.contains_key(st.needs_eval[i]) || st.dedup.contains(
                    st.needs_eval[i],
                ) || fresh.contains(st.needs_eval[i]));
                if st.dedup.contains(ck) {
                    assert(accounted(st, none, ck));
                }
            }
        }
    }
    assert forall|i: int| 0 <= i < flight.len() implies claim_ok(oracles, #[trigger] flight[i]) by {
        assert(st.needs_eval.contains(fresh[i]));
        let j = choose|j: int| 0 <= j < st.needs_eval.len() && st.needs_eval[j] == fresh[i];
        assert(key_ok(oracles, st.needs_eval[j]));
    }
    assert forall|k: ClaimKey<F>| #[trigger] base.dedup.contains(k) implies accounted(
        base,
        flight,
        k,
    ) by {
        if st.dedup.contains(k) {
            assert(accounted(st, none, k));
        } else {
            assert(fresh.to_set().contains(k));
            assert(fresh.contains(k));
        }
    }
}

/// The state after a batch of claims was submitted: the dedup set knows
/// their keys, and they stand at the end of the queue.
pub open spec fn seed<F>(st: ProverState<F>, claims: Seq<ClaimSpec<F>>) -> ProverState<F> {
    ProverState {
        dedup: st.dedup.union(claim_keys(claims).to_set()),
        queue: st.queue + claims,
        ..st
    }
}

/// Submitting valid claims keeps the invariant.
pub proof fn lemma_seed_inv<F>(
    oracles: Seq<MultilinearPolyOracle<F>>,
    st: ProverState<F>,
    claims: Seq<ClaimSpec<F>>,
)
    requires
        state_inv(oracles, st, Seq::empty()),
        forall|i: int| 0 <= i < claims.len() ==> claim_ok(oracles, #[trigger] claims[i]),
    ensures
        state_inv(oracles, seed(st, claims), Seq::empty()),
{
    let next = seed(st, claims);
    let none = Seq::<ClaimSpec<F>>::empty();
    assert forall|k: ClaimKey<F>| in_claims(st.queue, k) implies in_claims(next.queue, k) by {
        let i = choose|i: int| 0 <= i < st.queue.len() && (#[trigger] st.queue[i]).key() == k;
        assert(next.queue[i] == st.queue[i]);
    }
    assert forall|k: ClaimKey<F>| #[trigger] next.pending.contains_key(k) implies pending_ok(
        oracles,
        next,
        none,
        k,
    ) by {
        assert(pending_ok(oracles, st, none, k));
        assert forall|j: int| 0 <= j < child_keys(oracles, k).len() implies accounted(
            next,
            none,
            #[trigger] child_keys(oracles, k)[j],
        ) || next.needs_eval.contains(child_keys(oracles, k)[j]) by {
            let ck = child_keys(oracles, k)[j];
            assert(accounted(st, none, ck) || st.needs_eval.contains(ck));
        }
    }
    assert forall|i: int| 0 <= i < next.queue.len() implies claim_ok(
        oracles,
        #[trigger] next.queue[i],
    ) by {
        if i < st.queue.len() {
            assert(next.queue[i] == st.queue[i]);
        } else {
            assert(next.queue[i] == claims[i - st.queue.len()]);
        }
    }
    assert forall|k: ClaimKey<F>| #[trigger] next.dedup.contains(k) implies accounted(
        next,
        none,
        k,
    ) by {
        if st.dedup.contains(k) {
            assert(accounted(st, none, k));
        } else {
            assert(claim_keys(claims).contains(k));
            let i = choose|i: int| 0 <= i < claims.len() && claim_keys(claims)[i] == k;
            assert(next.queue[st.queue.len() + i].key() == k);
        }
    }
}

/// Reducing claims neither adds to the dedup set nor takes from it.
pub proof fn lemma_reduce_prefix_keeps_dedup<F: Field>(
    oracles: Seq<MultilinearPolyOracle<F>>,
    st: ProverState<F>,
    claims: Seq<ClaimSpec<F>>,
    n: nat,
)
    ensures
        reduce_prefix(oracles, st, claims, n).dedup == st.dedup,
    decreases n,
{
    if n > 0 {
        lemma_reduce_prefix_keeps_dedup(oracles, st, claims, (n - 1) as nat);
    }
}

/// The engine never forgets a key that the dedup set knows.
pub proof fn lemma_run_keeps_dedup<F: Field>(
    oracles: Seq<MultilinearPolyOracle<F>>,
    columns: Seq<Option<Vec<F>>>,
    st: ProverState<F>,
    n: nat,
)
    requires
        run(oracles, columns, st, n) is Some,
    ensures
        st.dedup.subset_of(run(oracles, columns, st, n)->0.dedup),
    decreases n,
{
    if n > 0 {
        let prev = run(oracles, columns, st, (n - 1) as nat)->0;
        lemma_run_keeps_dedup(oracles, columns, st, (n - 1) as nat);
        if prev.queue.len() > 0 {
            lemma_reduce_prefix_keeps_dedup(
                oracles,
                ProverState { queue: Seq::empty(), ..prev },
                prev.queue,
                prev.queue.len(),
            );
        } else if prev.needs_eval.len() > 0 {
            let fresh = fresh_keys(prev, prev.needs_eval.len());
            lemma_reduce_prefix_keeps_dedup(
                oracles,
                evaluation_base(prev),
                valued_claims(columns, fresh),
                fresh.len(),
            );
        }
    }
}

/// Reducing claims in flight keeps the invariant.
pub proof fn lemma_reduce_prefix_keeps_inv<F: Field>(
    oracles: Seq<MultilinearPolyOracle<F>>,
    st: ProverState<F>,
    claims: Seq<ClaimSpec<F>>,
    n: nat,
)
    requires
        oracles_wf(oracles),
        n <= claims.len(),
        state_inv(oracles, st, claims),
    ensures
        state_inv(oracles, reduce_prefix(oracles, st, claims, n), claims.skip(n as int)),
    decreases n,
{
    if n == 0 {
        assert(claims.skip(0) =~= claims);
    } else {
        lemma_reduce_prefix_keeps_inv(oracles, st, claims, (n - 1) as nat);
        let prev = reduce_prefix(oracles, st, claims, (n - 1) as nat);
        let flight = claims.skip(n - 1);
        assert(flight[0] == claims[n - 1]);
        assert(flight.drop_first() =~= claims.skip(n as int));
        lemma_reduce_keeps_inv(oracles, prev, flight);
    }
}

/// Any number of steps keeps the invariant.
pub proof fn lemma_run_keeps_inv<F: Field>(
    oracles: Seq<MultilinearPolyOracle<F>>,
    columns: Seq<Option<Vec<F>>>,
    st: ProverState<F>,
    n: nat,
)
    requires
        oracles_wf(oracles),
        state_inv(oracles, st, Seq::empty()),
        run(oracles, columns, st, n) is Some,
    ensures
        state_inv(oracles, run(oracles, columns, st, n)->0, Seq::empty()),
    decreases n,
{
    if n > 0 {
        lemma_run_keeps_inv(oracles, columns, st, (n - 1) as nat);
        let prev = run(oracles, columns, st, (n - 1) as nat)->0;
        if prev.queue.len() > 0 {
            let base = ProverState { queue: Seq::empty(), ..prev };
            lemma_start_drain(oracles, prev);
            lemma_reduce_prefix_keeps_inv(oracles, base, prev.queue, prev.queue.len());
            assert(prev.queue.skip(prev.queue.len() as int) =~= Seq::empty());
        } else if prev.needs_eval.len() > 0 {
            let fresh = fresh_keys(prev, prev.needs_eval.len());
            let claims = valued_claims(columns, fresh);
            lemma_start_evaluation(oracles, columns, prev);
            lemma_reduce_prefix_keeps_inv(oracles, evaluation_base(prev), claims, claims.len());
            assert(claims.skip(claims.len() as int) =~= Seq::empty());
        }
    }
}

} // verus!
