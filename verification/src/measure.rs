use vstd::prelude::*;
use crate::evalcheck::{ClaimKey, ClaimSpec};
use crate::field::Field;
use crate::oracle::{oracle_fits, oracles_wf, MultilinearPolyOracle, OracleVariant};
use crate::reduction::{child_keys, claim_ok, key_ok, lemma_child_keys_ok, reduce, ProverState};

verus! {

/// The size of the part of the oracle graph that a claim about `id` can
/// still unfold, counting the first `n` children of `id`: one for the
/// oracle itself and the weights of those children. Reducing a claim
/// replaces it by claims about its children, so the total always drops.
pub open spec fn weight_upto<F>(
    oracles: Seq<MultilinearPolyOracle<F>>,
    id: int,
    point: Seq<F>,
    n: nat,
) -> nat
    decreases id, n,
{
    if n == 0 || id < 0 {
        1
    } else {
        let child = child_keys(oracles, (id as usize, point))[n - 1];
        weight_upto(oracles, id, point, (n - 1) as nat) + if child.0 < id {
            weight(oracles, child)
        } else {
            0
        }
    }
}

/// The weight of a claim at `key`: one more than the weights of its
/// children.
pub open spec fn weight<F>(oracles: Seq<MultilinearPolyOracle<F>>, key: ClaimKey<F>) -> nat
    decreases key.0, usize::MAX + 1,
{
    let n = child_keys(oracles, key).len();
    if n <= usize::MAX {
        weight_upto(oracles, key.0 as int, key.1, n)
    } else {
        1
    }
}

/// The total weight of a sequence of keys.
pub open spec fn keys_weight<F>(
    oracles: Seq<MultilinearPolyOracle<F>>,
    keys: Seq<ClaimKey<F>>,
) -> nat
    decreases keys.len(),
{
    if keys.len() == 0 {
        0
    } else {
        keys_weight(oracles, keys.drop_last()) + weight(oracles, keys.last())
    }
}

/// The keys of a sequence of claims.
pub open spec fn claim_keys<F>(claims: Seq<ClaimSpec<F>>) -> Seq<ClaimKey<F>> {
    Seq::new(claims.len(), |i: int| claims[i].key())
}

/// What is left to do: the weight of the queue and of the keys that wait
/// for a value.
pub open spec fn work<F>(oracles: Seq<MultilinearPolyOracle<F>>, st: ProverState<F>) -> nat {
    keys_weight(oracles, claim_keys(st.queue)) + keys_weight(oracles, st.needs_eval)
}

/// The weight of a concatenation is the sum of the weights.
pub proof fn lemma_keys_weight_add<F>(
    oracles: Seq<MultilinearPolyOracle<F>>,
    a: Seq<ClaimKey<F>>,
    b: Seq<ClaimKey<F>>,
)
    ensures
        keys_weight(oracles, a + b) == keys_weight(oracles, a) + keys_weight(oracles, b),
    decreases b.len(),
{
    if b.len() == 0 {
        assert(a + b =~= a);
    } else {
        lemma_keys_weight_add(oracles, a, b.drop_last());
        assert((a + b).drop_last() =~= a + b.drop_last());
    }
}

/// The children of a valid key weigh one less than the key.
pub proof fn lemma_children_weight<F>(
    oracles: Seq<MultilinearPolyOracle<F>>,
    key: ClaimKey<F>,
    n: nat,
)
    requires
        oracles_wf(oracles),
        key_ok(oracles, key),
        n <= child_keys(oracles, key).len(),
    ensures
        keys_weight(oracles, child_keys(oracles, key).take(n as int)) + 1 == weight_upto(
            oracles,
            key.0 as int,
            key.1,
            n,
        ),
    decreases n,
{
    let kids = child_keys(oracles, key);
    if n == 0 {
    } else {
        lemma_children_weight(oracles, key, (n - 1) as nat);
        lemma_child_keys_ok(oracles, key, n - 1);
        assert(kids.take(n as int).drop_last() =~= kids.take(n - 1));
        assert(kids.take(n as int).last() == kids[n - 1]);
    }
}

/// Every key weighs at least one.
pub proof fn lemma_weight_positive<F>(oracles: Seq<MultilinearPolyOracle<F>>, key: ClaimKey<F>)
    ensures
        weight(oracles, key) >= 1,
{
    let n = child_keys(oracles, key).len();
    if n <= usize::MAX {
        lemma_weight_upto_positive(oracles, key.0 as int, key.1, n);
    }
}

proof fn lemma_weight_upto_positive<F>(
    oracles: Seq<MultilinearPolyOracle<F>>,
    id: int,
    point: Seq<F>,
    n: nat,
)
    ensures
        weight_upto(oracles, id, point, n) >= 1,
    decreases n,
{
    if n == 0 || id < 0 {
    } else {
        lemma_weight_upto_positive(oracles, id, point, (n - 1) as nat);
    }
}

/// Reducing a claim that was taken out of the queue leaves less work than
/// the state and the claim held together.
pub proof fn lemma_reduce_decreases<F: Field>(
    oracles: Seq<MultilinearPolyOracle<F>>,
    st: ProverState<F>,
    claim: ClaimSpec<F>,
)
    requires
        oracles_wf(oracles),
        claim_ok(oracles, claim),
    ensures
        work(oracles, reduce(oracles, st, claim)) < work(oracles, st) + weight(
            oracles,
            claim.key(),
        ),
{
    let key = claim.key();
    let next = reduce(oracles, st, claim);
    let kids = child_keys(oracles, key);
    lemma_weight_positive(oracles, key);
    assert(oracle_fits(oracles, key.0 as int));
    assert(kids.len() <= usize::MAX) by {
        match oracles[key.0 as int].variant {
            OracleVariant::LinearCombination { offset, terms } => {
                assert(terms.len() == terms@.len());
            },
            _ => {},
        }
    }
    lemma_children_weight(oracles, key, kids.len());
    assert(kids.take(kids.len() as int) =~= kids);
    if next.queue.len() > st.queue.len() {
        assert(kids.len() == 1);
        assert(claim_keys(next.queue) =~= claim_keys(st.queue) + kids);
        lemma_keys_weight_add(oracles, claim_keys(st.queue), kids);
    } else if next.needs_eval.len() > st.needs_eval.len() {
        lemma_keys_weight_add(oracles, st.needs_eval, kids);
    } else {
        assert(next.queue == st.queue);
        if next.needs_eval != st.needs_eval {
            assert(next.needs_eval =~= st.needs_eval);
        }
    }
}

} // verus!
