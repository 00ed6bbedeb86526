use vstd::prelude::*;
use crate::evalcheck::{ClaimKey, ClaimSpec, ProofSpec};
use crate::oracle::{MultilinearPolyOracle, OracleVariant};
use crate::reduction::child_keys;

verus! {

/// The claims that a traversal hands on: those on committed polynomials,
/// for the commitment scheme to open, and those on shifted and packed
/// polynomials, for the sumcheck protocol.
pub struct Collected<F> {
    pub committed: Seq<ClaimSpec<F>>,
    pub bivariate: Seq<ClaimSpec<F>>,
}

impl<F> Collected<F> {
    /// Nothing collected.
    pub open spec fn none() -> Self {
        Collected { committed: Seq::empty(), bivariate: Seq::empty() }
    }

    /// What `self` holds followed by what `other` holds.
    pub open spec fn append(self, other: Self) -> Self {
        Collected {
            committed: self.committed + other.committed,
            bivariate: self.bivariate + other.bivariate,
        }
    }
}

/// Whether a claim about an oracle of this kind hands its own value down
/// to its child. The children of the other composite kinds take their
/// values from the finalized table.
pub open spec fn passes_value<F>(variant: OracleVariant<F>) -> bool {
    variant is Repeating || variant is Projected
}

/// The claims about the children of the oracle of `claim`, in the
/// children's order.
pub open spec fn child_claims<F>(
    oracles: Seq<MultilinearPolyOracle<F>>,
    table: Map<ClaimKey<F>, (F, ProofSpec<F>)>,
    claim: ClaimSpec<F>,
) -> Seq<ClaimSpec<F>> {
    let kids = child_keys(oracles, claim.key());
    Seq::new(
        kids.len(),
        |j: int|
            ClaimSpec {
                id: kids[j].0,
                point: kids[j].1,
                eval: if passes_value(oracles[claim.id as int].variant) {
                    claim.eval
                } else {
                    table[kids[j]].0
                },
            },
    )
}

/// What a depth-first walk from `claim` through the structure of its
/// oracle collects: the claim itself where the oracle is committed,
/// shifted or packed, nothing where it is transparent, and else what the
/// walks from its children collect, child after child.
pub open spec fn collect<F>(
    oracles: Seq<MultilinearPolyOracle<F>>,
    table: Map<ClaimKey<F>, (F, ProofSpec<F>)>,
    claim: ClaimSpec<F>,
) -> Collected<F>
    decreases claim.id, 1int, 0nat,
{
    match oracles[claim.id as int].variant {
        OracleVariant::Committed => Collected { committed: seq![claim], bivariate: Seq::empty() },
        OracleVariant::Shifted { .. } => Collected {
            committed: Seq::empty(),
            bivariate: seq![claim],
        },
        OracleVariant::Packed { .. } => Collected {
            committed: Seq::empty(),
            bivariate: seq![claim],
        },
        OracleVariant::Transparent { .. } => Collected::none(),
        _ => collect_children(
            oracles,
            table,
            claim,
            child_claims(oracles, table, claim).len(),
        ),
    }
}

/// What the walks from the first `n` children of `claim` collect.
pub open spec fn collect_children<F>(
    oracles: Seq<MultilinearPolyOracle<F>>,
    table: Map<ClaimKey<F>, (F, ProofSpec<F>)>,
    claim: ClaimSpec<F>,
    n: nat,
) -> Collected<F>
    decreases claim.id, 0int, n,
{
    if n == 0 {
        Collected::none()
    } else {
        let child = child_claims(oracles, table, claim)[n - 1];
        collect_children(oracles, table, claim, (n - 1) as nat).append(
            if child.id < claim.id {
                collect(oracles, table, child)
            } else {
                Collected::none()
            },
        )
    }
}

/// What the walks from the first `n` claims of a sequence collect, claim
/// after claim.
pub open spec fn collect_all<F>(
    oracles: Seq<MultilinearPolyOracle<F>>,
    table: Map<ClaimKey<F>, (F, ProofSpec<F>)>,
    claims: Seq<ClaimSpec<F>>,
    n: nat,
) -> Collected<F>
    decreases n,
{
    if n == 0 {
        Collected::none()
    } else {
        collect_all(oracles, table, claims, (n - 1) as nat).append(
            collect(oracles, table, claims[n - 1]),
        )
    }
}

/// What is collected when the claims of a stack are walked from the top,
/// which is the last, down to the bottom.
pub open spec fn collect_stack<F>(
    oracles: Seq<MultilinearPolyOracle<F>>,
    table: Map<ClaimKey<F>, (F, ProofSpec<F>)>,
    stack: Seq<ClaimSpec<F>>,
) -> Collected<F>
    decreases stack.len(),
{
    if stack.len() == 0 {
        Collected::none()
    } else {
        collect(oracles, table, stack.last()).append(
            collect_stack(oracles, table, stack.drop_last()),
        )
    }
}

/// Appending is associative, and appending nothing changes nothing.
pub proof fn lemma_append_laws<F>(a: Collected<F>, b: Collected<F>, c: Collected<F>)
    ensures
        a.append(b).append(c) == a.append(b.append(c)),
        a.append(Collected::none()) == a,
        Collected::<F>::none().append(a) == a,
{
    assert(a.append(b).append(c).committed =~= a.append(b.append(c)).committed);
    assert(a.append(b).append(c).bivariate =~= a.append(b.append(c)).bivariate);
    assert(a.append(Collected::none()).committed =~= a.committed);
    assert(a.append(Collected::none()).bivariate =~= a.bivariate);
    assert(Collected::<F>::none().append(a).committed =~= a.committed);
    assert(Collected::<F>::none().append(a).bivariate =~= a.bivariate);
}

/// Pushing a claim on a stack puts what its walk collects in front.
pub proof fn lemma_collect_stack_push<F>(
    oracles: Seq<MultilinearPolyOracle<F>>,
    table: Map<ClaimKey<F>, (F, ProofSpec<F>)>,
    stack: Seq<ClaimSpec<F>>,
    claim: ClaimSpec<F>,
)
    ensures
        collect_stack(oracles, table, stack.push(claim)) == collect(oracles, table, claim).append(
            collect_stack(oracles, table, stack),
        ),
{
    assert(stack.push(claim).drop_last() =~= stack);
}

} // verus!
