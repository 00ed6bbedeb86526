use vstd::prelude::*;
use crate::evalcheck::{ClaimKey, ClaimSpec, ProofSpec};
use crate::field::Field;
use crate::oracle::{oracle_fits, oracles_wf, MultilinearPolyOracle, OracleVariant};
use crate::reduction::{child_keys, claim_ok, is_leaf, lemma_child_keys_ok};
use crate::verify::{
    child_claim, child_entries, combination_value, entry_evals, padding_factor, shape_matches,
    verified, verified_children, Leaves,
};

verus! {

/// The value at the point of `key` of the polynomial that the oracle of
/// `key` stands for, given the values `leaf` of the leaf polynomials: a
/// repeating polynomial has the value of the inner one at the first
/// coordinates; a projection has the value of the inner one at the joined
/// point; a linear combination is the offset plus the weighted sum; a
/// zero-padded polynomial is the inner one times the factor that vanishes
/// off the vertex where the added variables are zero.
pub open spec fn value_of<F: Field>(
    oracles: Seq<MultilinearPolyOracle<F>>,
    leaf: spec_fn(ClaimKey<F>) -> F,
    key: ClaimKey<F>,
) -> F
    decreases key.0, 1int, 0nat,
{
    let kids = child_keys(oracles, key);
    match oracles[key.0 as int].variant {
        OracleVariant::Repeating { inner, log_count } => if inner < key.0 {
            value_of(oracles, leaf, kids[0])
        } else {
            leaf(key)
        },
        OracleVariant::Projected { inner, values, variant } => if inner < key.0 {
            value_of(oracles, leaf, kids[0])
        } else {
            leaf(key)
        },
        OracleVariant::LinearCombination { offset, terms } => combination_of(
            oracles,
            leaf,
            key,
            terms@.len(),
        ),
        OracleVariant::ZeroPadded { inner } => if inner < key.0 {
            value_of(oracles, leaf, kids[0]).mul_spec(
                padding_factor(key.1, oracles[inner as int].n_vars as nat, key.1.len()),
            )
        } else {
            leaf(key)
        },
        _ => leaf(key),
    }
}

/// The offset of the linear combination at `key` plus the weighted sum of
/// the values of its first `n` polynomials.
pub open spec fn combination_of<F: Field>(
    oracles: Seq<MultilinearPolyOracle<F>>,
    leaf: spec_fn(ClaimKey<F>) -> F,
    key: ClaimKey<F>,
    n: nat,
) -> F
    decreases key.0, 0int, n,
{
    match oracles[key.0 as int].variant {
        OracleVariant::LinearCombination { offset, terms } => if n == 0 {
            offset
        } else {
            let kid = child_keys(oracles, key)[n - 1];
            combination_of(oracles, leaf, key, (n - 1) as nat).add_spec(
                terms@[n - 1].1.mul_spec(
                    if kid.0 < key.0 {
                        value_of(oracles, leaf, kid)
                    } else {
                        leaf(kid)
                    },
                ),
            )
        },
        _ => leaf(key),
    }
}

/// Whether every claim has the value that `leaf` gives at its key.
pub open spec fn all_true<F>(leaves: Leaves<F>, leaf: spec_fn(ClaimKey<F>) -> F) -> bool {
    forall|l: ClaimSpec<F>| #[trigger] leaves.holds(l) ==> l.eval == leaf(l.key())
}

/// The claims of two verifications are true where those of both together
/// are.
proof fn lemma_all_true_split<F>(a: Leaves<F>, b: Leaves<F>, leaf: spec_fn(ClaimKey<F>) -> F)
    requires
        all_true(a.append(b), leaf),
    ensures
        all_true(a, leaf),
        all_true(b, leaf),
{
    let both = a.append(b);
    assert forall|l: ClaimSpec<F>| #[trigger] a.holds(l) implies l.eval == leaf(l.key()) by {
        if a.committed.contains(l) {
            let i = choose|i: int| 0 <= i < a.committed.len() && a.committed[i] == l;
            assert(both.committed[i] == l);
        } else if a.bivariate.contains(l) {
            let i = choose|i: int| 0 <= i < a.bivariate.len() && a.bivariate[i] == l;
            assert(both.bivariate[i] == l);
        } else {
            let i = choose|i: int| 0 <= i < a.transparent.len() && a.transparent[i] == l;
            assert(both.transparent[i] == l);
        }
        assert(both.holds(l));
    }
    assert forall|l: ClaimSpec<F>| #[trigger] b.holds(l) implies l.eval == leaf(l.key()) by {
        if b.committed.contains(l) {
            let i = choose|i: int| 0 <= i < b.committed.len() && b.committed[i] == l;
            assert(both.committed[a.committed.len() + i] == l);
        } else if b.bivariate.contains(l) {
            let i = choose|i: int| 0 <= i < b.bivariate.len() && b.bivariate[i] == l;
            assert(both.bivariate[a.bivariate.len() + i] == l);
        } else {
            let i = choose|i: int| 0 <= i < b.transparent.len() && b.transparent[i] == l;
            assert(both.transparent[a.transparent.len() + i] == l);
        }
        assert(both.holds(l));
    }
}

/// No verification accepts a false claim on true openings: where the
/// verifier's reduction of a claim succeeds and every claim on a leaf
/// that it hands on has the value of that leaf, the value of the claim is
/// the value of its polynomial. So a claim of any other value is either
/// rejected or reduced to a claim on a leaf that is false.
pub proof fn lemma_accepted_claim_is_true<F: Field>(
    oracles: Seq<MultilinearPolyOracle<F>>,
    leaf: spec_fn(ClaimKey<F>) -> F,
    claim: ClaimSpec<F>,
    tree: ProofSpec<F>,
)
    requires
        oracles_wf(oracles),
        claim_ok(oracles, claim),
        verified(oracles, claim, tree) is Ok,
        all_true(verified(oracles, claim, tree)->Ok_0, leaf),
    ensures
        claim.eval == value_of(oracles, leaf, claim.key()),
    decreases claim.id, 1int, 0nat,
{
    let key = claim.key();
    let variant = oracles[claim.id as int].variant;
    let kids = child_keys(oracles, key);
    let leaves = verified(oracles, claim, tree)->Ok_0;
    assert(oracle_fits(oracles, claim.id as int));
    if is_leaf(variant) {
        assert(leaves.holds(claim)) by {
            match variant {
                OracleVariant::Committed => {
                    assert(leaves.committed[0] == claim);
                },
                OracleVariant::Transparent { .. } => {
                    assert(leaves.transparent[0] == claim);
                },
                _ => {
                    assert(leaves.bivariate[0] == claim);
                },
            }
        }
    } else {
        lemma_children_true(oracles, leaf, claim, tree, kids.len());
        match variant {
            OracleVariant::LinearCombination { offset, terms } => {
                lemma_combination_matches(oracles, leaf, claim, tree, terms@.len());
            },
            _ => {
                lemma_child_keys_ok(oracles, key, 0);
                assert(child_claim(oracles, claim, tree, 0).eval == value_of(
                    oracles,
                    leaf,
                    kids[0],
                ));
            },
        }
    }
}

/// Where the reduction of the first `n` children succeeds on true
/// openings, each of those children is claimed at its true value.
pub proof fn lemma_children_true<F: Field>(
    oracles: Seq<MultilinearPolyOracle<F>>,
    leaf: spec_fn(ClaimKey<F>) -> F,
    claim: ClaimSpec<F>,
    tree: ProofSpec<F>,
    n: nat,
)
    requires
        oracles_wf(oracles),
        claim_ok(oracles, claim),
        n <= child_keys(oracles, claim.key()).len(),
        verified_children(oracles, claim, tree, n) is Ok,
        all_true(verified_children(oracles, claim, tree, n)->Ok_0, leaf),
    ensures
        forall|j: int|
            0 <= j < n ==> (#[trigger] child_claim(oracles, claim, tree, j)).eval == value_of(
                oracles,
                leaf,
                child_keys(oracles, claim.key())[j],
            ),
    decreases claim.id, 0int, n,
{
    if n > 0 {
        let before = verified_children(oracles, claim, tree, (n - 1) as nat)->Ok_0;
        let child = child_claim(oracles, claim, tree, n - 1);
        let entries = child_entries(oracles[claim.id as int].variant, claim.eval, tree);
        let leaves = verified(oracles, child, entries[n - 1].1)->Ok_0;
        lemma_all_true_split(before, leaves, leaf);
        lemma_children_true(oracles, leaf, claim, tree, (n - 1) as nat);
        lemma_child_keys_ok(oracles, claim.key(), n - 1);
        lemma_accepted_claim_is_true(oracles, leaf, child, entries[n - 1].1);
    }
}

/// The weighted sum over the values that a proof gives for the children
/// is the weighted sum over their true values where the children are
/// claimed at their true values.
proof fn lemma_combination_matches<F: Field>(
    oracles: Seq<MultilinearPolyOracle<F>>,
    leaf: spec_fn(ClaimKey<F>) -> F,
    claim: ClaimSpec<F>,
    tree: ProofSpec<F>,
    n: nat,
)
    requires
        oracles_wf(oracles),
        claim_ok(oracles, claim),
        oracles[claim.id as int].variant is LinearCombination,
        shape_matches(oracles[claim.id as int].variant, tree),
        n <= child_keys(oracles, claim.key()).len(),
        forall|j: int|
            0 <= j < n ==> (#[trigger] child_claim(oracles, claim, tree, j)).eval == value_of(
                oracles,
                leaf,
                child_keys(oracles, claim.key())[j],
            ),
    ensures
        combination_value(
            oracles[claim.id as int].variant->LinearCombination_offset,
            oracles[claim.id as int].variant->LinearCombination_terms@,
            entry_evals(tree->subproofs),
            n,
        ) == combination_of(oracles, leaf, claim.key(), n),
    decreases n,
{
    if n > 0 {
        lemma_combination_matches(oracles, leaf, claim, tree, (n - 1) as nat);
        lemma_child_keys_ok(oracles, claim.key(), n - 1);
        assert(child_claim(oracles, claim, tree, n - 1).eval == entry_evals(tree->subproofs)[n
            - 1]);
    }
}

} // verus!
