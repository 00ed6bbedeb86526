use vstd::prelude::*;
use crate::collection::{child_claims, collect, collect_all, collect_children};
use crate::evalcheck::{ClaimKey, ClaimSpec, ProofSpec};
use crate::oracle::{oracle_fits, oracles_wf, MultilinearPolyOracle, OracleVariant};
use crate::reduction::{child_keys, claim_ok, extends, key_ok, lemma_child_keys_ok};
use crate::subclaims::{
    add_to_builders, added_ok, bivariate_inner, builders_after, empty_builders, is_bivariate,
    lemma_base_of_grows, meta_of, oracles_extended, sumcheck_of,
};
use crate::sumcheck::BivariateSumcheck;

verus! {

/// The depth of an oracle: the largest number of shifted and packed
/// oracles on a path from it down to a leaf.
pub open spec fn depth<F>(oracles: Seq<MultilinearPolyOracle<F>>, id: int) -> nat
    decreases id, 1int, 0nat,
{
    if id < 0 {
        0
    } else {
        match oracles[id].variant {
            OracleVariant::Repeating { inner, .. } => if inner < id {
                depth(oracles, inner as int)
            } else {
                0
            },
            OracleVariant::Shifted { inner, .. } => if inner < id {
                1 + depth(oracles, inner as int)
            } else {
                1
            },
            OracleVariant::Packed { inner, .. } => if inner < id {
                1 + depth(oracles, inner as int)
            } else {
                1
            },
            OracleVariant::Projected { inner, .. } => if inner < id {
                depth(oracles, inner as int)
            } else {
                0
            },
            OracleVariant::ZeroPadded { inner } => if inner < id {
                depth(oracles, inner as int)
            } else {
                0
            },
            OracleVariant::LinearCombination { offset, terms } => terms_depth(
                oracles,
                id,
                terms@.len(),
            ),
            _ => 0,
        }
    }
}

/// The largest depth among the first `n` polynomials of the linear
/// combination at `id`.
pub open spec fn terms_depth<F>(oracles: Seq<MultilinearPolyOracle<F>>, id: int, n: nat) -> nat
    decreases id, 0int, n,
{
    match oracles[id].variant {
        OracleVariant::LinearCombination { offset, terms } => if n == 0 || id < 0 {
            0
        } else {
            let rest = terms_depth(oracles, id, (n - 1) as nat);
            let term = terms@[n - 1].0;
            let last = if term < id {
                depth(oracles, term as int)
            } else {
                0
            };
            if rest < last {
                last
            } else {
                rest
            }
        },
        _ => 0,
    }
}

/// Whether every claim is on an oracle of depth at most `d`.
pub open spec fn claims_within<F>(
    oracles: Seq<MultilinearPolyOracle<F>>,
    claims: Seq<ClaimSpec<F>>,
    d: nat,
) -> bool {
    forall|i: int| 0 <= i < claims.len() ==> depth(oracles, (#[trigger] claims[i]).id as int) <= d
}

/// The largest depth among the oracles of the first `n` claims.
pub open spec fn max_depth_upto<F>(
    oracles: Seq<MultilinearPolyOracle<F>>,
    claims: Seq<ClaimSpec<F>>,
    n: nat,
) -> nat
    decreases n,
{
    if n == 0 {
        0
    } else {
        let rest = max_depth_upto(oracles, claims, (n - 1) as nat);
        let last = depth(oracles, claims[n - 1].id as int);
        if rest < last {
            last
        } else {
            rest
        }
    }
}

/// The largest depth among the oracles of the claims.
pub open spec fn max_depth<F>(
    oracles: Seq<MultilinearPolyOracle<F>>,
    claims: Seq<ClaimSpec<F>>,
) -> nat {
    max_depth_upto(oracles, claims, claims.len())
}

/// Each of the first `n` claims is on an oracle no deeper than the
/// deepest among them.
pub proof fn lemma_max_depth_bounds<F>(
    oracles: Seq<MultilinearPolyOracle<F>>,
    claims: Seq<ClaimSpec<F>>,
    n: nat,
    i: int,
)
    requires
        0 <= i < n,
    ensures
        depth(oracles, claims[i].id as int) <= max_depth_upto(oracles, claims, n),
    decreases n,
{
    if i < n - 1 {
        lemma_max_depth_bounds(oracles, claims, (n - 1) as nat, i);
    }
}

/// The depth of a linear combination is no less than that of any of the
/// polynomials counted.
proof fn lemma_terms_depth_bounds<F>(
    oracles: Seq<MultilinearPolyOracle<F>>,
    id: int,
    n: nat,
    j: int,
)
    requires
        0 <= id,
        oracles[id].variant is LinearCombination,
        0 <= j < n,
        oracles[id].variant->LinearCombination_terms@[j].0 < id,
    ensures
        depth(oracles, oracles[id].variant->LinearCombination_terms@[j].0 as int) <= terms_depth(
            oracles,
            id,
            n,
        ),
    decreases n,
{
    if j < n - 1 {
        lemma_terms_depth_bounds(oracles, id, (n - 1) as nat, j);
    }
}

/// A child of a claim is on an oracle that is no deeper than the claim's.
pub proof fn lemma_child_depth<F>(
    oracles: Seq<MultilinearPolyOracle<F>>,
    key: ClaimKey<F>,
    j: int,
)
    requires
        oracles_wf(oracles),
        key_ok(oracles, key),
        0 <= j < child_keys(oracles, key).len(),
    ensures
        depth(oracles, child_keys(oracles, key)[j].0 as int) <= depth(oracles, key.0 as int),
{
    lemma_child_keys_ok(oracles, key, j);
    assert(oracle_fits(oracles, key.0 as int));
    match oracles[key.0 as int].variant {
        OracleVariant::LinearCombination { offset, terms } => {
            lemma_terms_depth_bounds(oracles, key.0 as int, terms@.len(), j);
        },
        _ => {},
    }
}

/// The depth of an oracle stays what it is when oracles are added.
pub proof fn lemma_depth_extension<F>(
    before: Seq<MultilinearPolyOracle<F>>,
    after: Seq<MultilinearPolyOracle<F>>,
    id: int,
)
    requires
        oracles_wf(before),
        extends(before, after),
        0 <= id < before.len(),
    ensures
        depth(after, id) == depth(before, id),
    decreases id, 1int, 0nat,
{
    assert(after.take(before.len() as int)[id] == after[id]);
    assert(oracle_fits(before, id));
    match before[id].variant {
        OracleVariant::Repeating { inner, .. } => {
            lemma_depth_extension(before, after, inner as int);
        },
        OracleVariant::Shifted { inner, .. } => {
            lemma_depth_extension(before, after, inner as int);
        },
        OracleVariant::Packed { inner, .. } => {
            lemma_depth_extension(before, after, inner as int);
        },
        OracleVariant::Projected { inner, .. } => {
            lemma_depth_extension(before, after, inner as int);
        },
        OracleVariant::ZeroPadded { inner } => {
            lemma_depth_extension(before, after, inner as int);
        },
        OracleVariant::LinearCombination { offset, terms } => {
            lemma_terms_depth_extension(before, after, id, terms@.len());
        },
        _ => {},
    }
}

proof fn lemma_terms_depth_extension<F>(
    before: Seq<MultilinearPolyOracle<F>>,
    after: Seq<MultilinearPolyOracle<F>>,
    id: int,
    n: nat,
)
    requires
        oracles_wf(before),
        extends(before, after),
        0 <= id < before.len(),
        before[id].variant is LinearCombination,
        n <= before[id].variant->LinearCombination_terms@.len(),
    ensures
        terms_depth(after, id, n) == terms_depth(before, id, n),
    decreases id, 0int, n,
{
    assert(after.take(before.len() as int)[id] == after[id]);
    assert(oracle_fits(before, id));
    if n > 0 {
        lemma_terms_depth_extension(before, after, id, (n - 1) as nat);
        let term = before[id].variant->LinearCombination_terms@[n - 1].0;
        assert(term < id);
        lemma_depth_extension(before, after, term as int);
    }
}

/// Whether every claim is a valid claim on a shifted or packed oracle of
/// depth at most `d`.
pub open spec fn bivariate_within<F>(
    oracles: Seq<MultilinearPolyOracle<F>>,
    claims: Seq<ClaimSpec<F>>,
    d: nat,
) -> bool {
    forall|i: int|
        0 <= i < claims.len() ==> claim_ok(oracles, #[trigger] claims[i]) && is_bivariate(
            oracles[claims[i].id as int].variant,
        ) && depth(oracles, claims[i].id as int) <= d
}

/// Claims within a bound followed by claims within it are within it.
proof fn lemma_bivariate_within_add<F>(
    oracles: Seq<MultilinearPolyOracle<F>>,
    a: Seq<ClaimSpec<F>>,
    b: Seq<ClaimSpec<F>>,
    d: nat,
)
    requires
        bivariate_within(oracles, a, d),
        bivariate_within(oracles, b, d),
    ensures
        bivariate_within(oracles, a + b, d),
{
    assert forall|i: int| 0 <= i < (a + b).len() implies claim_ok(oracles, #[trigger] (a + b)[i])
        && is_bivariate(oracles[(a + b)[i].id as int].variant) && depth(
        oracles,
        (a + b)[i].id as int,
    ) <= d by {
        if i < a.len() {
            assert((a + b)[i] == a[i]);
        } else {
            assert((a + b)[i] == b[i - a.len()]);
        }
    }
}

/// The walk from a claim collects claims on shifted and packed oracles
/// that are no deeper than the oracle of the claim.
pub proof fn lemma_collect_depth<F>(
    oracles: Seq<MultilinearPolyOracle<F>>,
    table: Map<ClaimKey<F>, (F, ProofSpec<F>)>,
    claim: ClaimSpec<F>,
)
    requires
        oracles_wf(oracles),
        claim_ok(oracles, claim),
    ensures
        bivariate_within(
            oracles,
            collect(oracles, table, claim).bivariate,
            depth(oracles, claim.id as int),
        ),
    decreases claim.id, 1int, 0nat,
{
    let found = collect(oracles, table, claim).bivariate;
    match oracles[claim.id as int].variant {
        OracleVariant::Committed => {},
        OracleVariant::Transparent { .. } => {},
        OracleVariant::Shifted { .. } => {
            assert(found[0] == claim);
        },
        OracleVariant::Packed { .. } => {
            assert(found[0] == claim);
        },
        _ => {
            lemma_collect_children_depth(
                oracles,
                table,
                claim,
                child_claims(oracles, table, claim).len(),
            );
        },
    }
}

/// The walks from the first `n` children of a claim collect claims on
/// shifted and packed oracles that are no deeper than the oracle of the
/// claim.
pub proof fn lemma_collect_children_depth<F>(
    oracles: Seq<MultilinearPolyOracle<F>>,
    table: Map<ClaimKey<F>, (F, ProofSpec<F>)>,
    claim: ClaimSpec<F>,
    n: nat,
)
    requires
        oracles_wf(oracles),
        claim_ok(oracles, claim),
        n <= child_claims(oracles, table, claim).len(),
    ensures
        bivariate_within(
            oracles,
            collect_children(oracles, table, claim, n).bivariate,
            depth(oracles, claim.id as int),
        ),
    decreases claim.id, 0int, n,
{
    if n > 0 {
        let d = depth(oracles, claim.id as int);
        let child = child_claims(oracles, table, claim)[n - 1];
        lemma_collect_children_depth(oracles, table, claim, (n - 1) as nat);
        lemma_child_keys_ok(oracles, claim.key(), n - 1);
        lemma_child_depth(oracles, claim.key(), n - 1);
        lemma_collect_depth(oracles, table, child);
        let before = collect_children(oracles, table, claim, (n - 1) as nat).bivariate;
        let found = collect(oracles, table, child).bivariate;
        assert forall|i: int| 0 <= i < found.len() implies claim_ok(oracles, #[trigger] found[i])
            && is_bivariate(oracles[found[i].id as int].variant) && depth(
            oracles,
            found[i].id as int,
        ) <= d by {}
        lemma_bivariate_within_add(oracles, before, found, d);
    }
}

/// The walks from claims within a bound collect claims on shifted and
/// packed oracles within the same bound.
pub proof fn lemma_collect_all_depth<F>(
    oracles: Seq<MultilinearPolyOracle<F>>,
    table: Map<ClaimKey<F>, (F, ProofSpec<F>)>,
    claims: Seq<ClaimSpec<F>>,
    n: nat,
    d: nat,
)
    requires
        oracles_wf(oracles),
        n <= claims.len(),
        forall|i: int| 0 <= i < claims.len() ==> claim_ok(oracles, #[trigger] claims[i]),
        claims_within(oracles, claims, d),
    ensures
        bivariate_within(oracles, collect_all(oracles, table, claims, n).bivariate, d),
    decreases n,
{
    if n > 0 {
        lemma_collect_all_depth(oracles, table, claims, (n - 1) as nat, d);
        lemma_collect_depth(oracles, table, claims[n - 1]);
        let before = collect_all(oracles, table, claims, (n - 1) as nat).bivariate;
        let found = collect(oracles, table, claims[n - 1]).bivariate;
        assert forall|i: int| 0 <= i < found.len() implies claim_ok(oracles, #[trigger] found[i])
            && is_bivariate(oracles[found[i].id as int].variant) && depth(
            oracles,
            found[i].id as int,
        ) <= d by {}
        lemma_bivariate_within_add(oracles, before, found, d);
    }
}

/// Whether both polynomials of the sumcheck instance are oracles of depth
/// at most `d`.
pub open spec fn constraint_within<F>(
    oracles: Seq<MultilinearPolyOracle<F>>,
    constraint: BivariateSumcheck<F>,
    d: int,
) -> bool {
    &&& constraint.projected_id < oracles.len()
    &&& constraint.multiplier_id < oracles.len()
    &&& depth(oracles, constraint.projected_id as int) <= d
    &&& depth(oracles, constraint.multiplier_id as int) <= d
}

/// The sumcheck instance of a claim on a shifted or packed oracle
/// multiplies two oracles that are less deep than the oracle of the
/// claim: the multiplier is transparent, and the other is the inner
/// oracle or a projection of it.
pub proof fn lemma_sumcheck_is_less_deep<F>(
    oracles: Seq<MultilinearPolyOracle<F>>,
    after: Seq<MultilinearPolyOracle<F>>,
    claims: Seq<ClaimSpec<F>>,
    n: nat,
    i: int,
    d: nat,
)
    requires
        oracles_wf(oracles),
        bivariate_within(oracles, claims, d),
        n <= claims.len(),
        oracles_extended(oracles, after, claims, n),
        after.len() <= usize::MAX,
        0 <= i < n,
    ensures
        d >= 1,
        constraint_within(after, sumcheck_of(meta_of(oracles, claims, i), claims[i]), d - 1),
{
    let claim = claims[i];
    let meta = meta_of(oracles, claims, i);
    let variant = oracles[claim.id as int].variant;
    let inner = bivariate_inner(variant);
    assert(added_ok(oracles, after, claims, i));
    assert(claim_ok(oracles, claim));
    assert(oracle_fits(oracles, claim.id as int));
    lemma_base_of_grows(oracles, claims, i as nat, n);
    lemma_base_of_grows(oracles, claims, 0, i as nat);
    assert(extends(oracles, after));
    lemma_depth_extension(oracles, after, inner as int);
    assert(depth(oracles, claim.id as int) == 1 + depth(oracles, inner as int));
    assert(depth(after, meta.multiplier_id as int) == 0);
    if meta.projected_id is Some {
        let pid = meta.projected_id->0;
        assert(inner < pid);
        assert(depth(after, pid as int) == depth(after, inner as int));
    }
}

/// Whether every sumcheck instance of every builder multiplies oracles of
/// depth at most `d`.
pub open spec fn builders_within<F>(
    oracles: Seq<MultilinearPolyOracle<F>>,
    builders: Seq<Seq<BivariateSumcheck<F>>>,
    d: int,
) -> bool {
    forall|k: int, j: int|
        0 <= k < builders.len() && 0 <= j < builders[k].len() ==> constraint_within(
            oracles,
            #[trigger] builders[k][j],
            d,
        )
}

/// The builders hold nothing but instances within a bound once an
/// instance within the bound has joined builders that held nothing else.
proof fn lemma_add_to_builders_within<F>(
    oracles: Seq<MultilinearPolyOracle<F>>,
    builders: Seq<Seq<BivariateSumcheck<F>>>,
    n_vars: nat,
    constraint: BivariateSumcheck<F>,
    d: int,
)
    requires
        builders_within(oracles, builders, d),
        constraint_within(oracles, constraint, d),
    ensures
        builders_within(oracles, add_to_builders(builders, n_vars, constraint), d),
{
    let grown = if n_vars < builders.len() {
        builders
    } else {
        builders + empty_builders((n_vars + 1 - builders.len()) as nat)
    };
    let next = add_to_builders(builders, n_vars, constraint);
    assert forall|k: int, j: int| 0 <= k < next.len() && 0 <= j < next[k].len() implies constraint_within(
        oracles,
        #[trigger] next[k][j],
        d,
    ) by {
        if k == n_vars {
            if j < grown[k].len() {
                assert(next[k][j] == grown[k][j]);
                if k < builders.len() {
                    assert(grown[k][j] == builders[k][j]);
                }
            }
        } else {
            assert(next[k] == grown[k]);
            if k < builders.len() {
                assert(grown[k][j] == builders[k][j]);
            }
        }
    }
}

/// The sumcheck instances of claims on shifted and packed oracles of depth
/// at most `d` multiply oracles of depth less than `d`.
pub proof fn lemma_builders_after_within<F>(
    oracles: Seq<MultilinearPolyOracle<F>>,
    after: Seq<MultilinearPolyOracle<F>>,
    builders: Seq<Seq<BivariateSumcheck<F>>>,
    claims: Seq<ClaimSpec<F>>,
    n: nat,
    m: nat,
    d: nat,
)
    requires
        oracles_wf(oracles),
        bivariate_within(oracles, claims, d),
        m <= n <= claims.len(),
        oracles_extended(oracles, after, claims, n),
        after.len() <= usize::MAX,
        builders_within(after, builders, d - 1),
    ensures
        builders_within(after, builders_after(oracles, builders, claims, m), d - 1),
    decreases m,
{
    if m > 0 {
        lemma_builders_after_within(oracles, after, builders, claims, n, (m - 1) as nat, d);
        lemma_sumcheck_is_less_deep(oracles, after, claims, n, m - 1, d);
        let meta = meta_of(oracles, claims, m - 1);
        lemma_add_to_builders_within(
            after,
            builders_after(oracles, builders, claims, (m - 1) as nat),
            meta.projected_n_vars as nat,
            sumcheck_of(meta, claims[m - 1]),
            d - 1,
        );
    }
}

} // verus!
