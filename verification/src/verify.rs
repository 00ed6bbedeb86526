use vstd::prelude::*;
use crate::error::{Error, VerificationError};
use crate::evalcheck::{
    clone_point, ClaimSpec, EvalcheckMultilinearClaim, EvalcheckProof, ProofSpec,
};
use crate::field::Field;
use crate::oracle::{
    oracle_fits, oracles_wf, MultilinearOracleSet, MultilinearPolyOracle, OracleId, OracleVariant,
};
use crate::prove::{
    claims_ok, claims_view, prefix_point, projected_eval_point, proofs_view, EvalcheckProver,
};
use crate::reduction::{
    child_keys, claim_ok, extends, is_leaf, leaf_proof, lemma_child_keys_ok,
    lemma_extension_keeps_children,
};
use crate::subclaims::{
    add_bivariate_sumcheck_to_constraints, added_ok, base_of, bivariate_inner, builders_after,
    builders_view, is_bivariate, lemma_base_of_grows, meta_of, oracles_extended,
};
use crate::sumcheck::ConstraintSetBuilder;

verus! {

/// The claims that a verification hands on: those on committed
/// polynomials, for the commitment scheme to open; those on shifted and
/// packed polynomials, for the sumcheck protocol; and those on
/// transparent polynomials, to be held against their public formulas.
pub struct Leaves<F> {
    pub committed: Seq<ClaimSpec<F>>,
    pub bivariate: Seq<ClaimSpec<F>>,
    pub transparent: Seq<ClaimSpec<F>>,
}

impl<F> Leaves<F> {
    /// No claims.
    pub open spec fn none() -> Self {
        Leaves { committed: Seq::empty(), bivariate: Seq::empty(), transparent: Seq::empty() }
    }

    /// The claims of `self` followed by those of `other`.
    pub open spec fn append(self, other: Self) -> Self {
        Leaves {
            committed: self.committed + other.committed,
            bivariate: self.bivariate + other.bivariate,
            transparent: self.transparent + other.transparent,
        }
    }

    /// Whether `claim` is one of the claims.
    pub open spec fn holds(self, claim: ClaimSpec<F>) -> bool {
        self.committed.contains(claim) || self.bivariate.contains(claim)
            || self.transparent.contains(claim)
    }
}

/// The one claim about a leaf oracle, filed by the kind of the oracle.
pub open spec fn leaf_of<F>(variant: OracleVariant<F>, claim: ClaimSpec<F>) -> Leaves<F> {
    match variant {
        OracleVariant::Committed => Leaves { committed: seq![claim], ..Leaves::none() },
        OracleVariant::Transparent { .. } => Leaves { transparent: seq![claim], ..Leaves::none() },
        _ => Leaves { bivariate: seq![claim], ..Leaves::none() },
    }
}

/// `offset` plus the sum of the first `n` coefficients times the values.
pub open spec fn combination_value<F: Field>(
    offset: F,
    terms: Seq<(OracleId, F)>,
    evals: Seq<F>,
    n: nat,
) -> F
    decreases n,
{
    if n == 0 {
        offset
    } else {
        combination_value(offset, terms, evals, (n - 1) as nat).add_spec(
            terms[n - 1].1.mul_spec(evals[n - 1]),
        )
    }
}

/// The product of `1 - point[i]` over the positions from `from` up to `n`:
/// the value at those coordinates of the polynomial that is one where all
/// of them are zero and zero at every other vertex.
pub open spec fn padding_factor<F: Field>(point: Seq<F>, from: nat, n: nat) -> F
    decreases n,
{
    if n <= from {
        F::one()
    } else {
        padding_factor(point, from, (n - 1) as nat).mul_spec(F::one().sub_spec(point[n - 1]))
    }
}

/// Whether a proof has the form that a claim about an oracle of this kind
/// is proved in.
pub open spec fn shape_matches<F>(variant: OracleVariant<F>, tree: ProofSpec<F>) -> bool {
    match variant {
        OracleVariant::Repeating { .. } => tree is Repeating,
        OracleVariant::Projected { .. } => true,
        OracleVariant::LinearCombination { offset, terms } => tree is LinearCombination
            && tree->subproofs.len() == terms@.len(),
        OracleVariant::ZeroPadded { .. } => tree is ZeroPadded,
        _ => tree == leaf_proof(variant),
    }
}

/// The values and proofs of the claims about the children that the proof
/// of a claim of value `eval` holds, in the children's order. The child
/// of a repeating or projected oracle has the value of the claim; the
/// proof of a projected claim is that of its child.
pub open spec fn child_entries<F>(
    variant: OracleVariant<F>,
    eval: F,
    tree: ProofSpec<F>,
) -> Seq<(F, ProofSpec<F>)> {
    if variant is Projected {
        seq![(eval, tree)]
    } else {
        match tree {
            ProofSpec::LinearCombination { subproofs } => subproofs,
            ProofSpec::Repeating(sub) => seq![(eval, *sub)],
            ProofSpec::ZeroPadded(inner_eval, sub) => seq![(inner_eval, *sub)],
            _ => Seq::empty(),
        }
    }
}

/// The values of the entries.
pub open spec fn entry_evals<F>(entries: Seq<(F, ProofSpec<F>)>) -> Seq<F> {
    Seq::new(entries.len(), |i: int| entries[i].0)
}

/// Whether the value of a claim follows from the values that its proof
/// gives for the children: a linear combination is the offset plus the
/// weighted sum of its polynomials, and a zero-padded polynomial is the
/// inner one where the added variables are zero and vanishes at every
/// other vertex of them.
pub open spec fn value_checks<F: Field>(
    oracles: Seq<MultilinearPolyOracle<F>>,
    claim: ClaimSpec<F>,
    tree: ProofSpec<F>,
) -> bool {
    match oracles[claim.id as int].variant {
        OracleVariant::LinearCombination { offset, terms } => claim.eval == combination_value(
            offset,
            terms@,
            entry_evals(tree->subproofs),
            terms@.len(),
        ),
        OracleVariant::ZeroPadded { inner } => claim.eval == tree->ZeroPadded_0.mul_spec(
            padding_factor(
                claim.point,
                oracles[inner as int].n_vars as nat,
                claim.point.len(),
            ),
        ),
        _ => true,
    }
}

/// The `j`-th child claim that the proof of `claim` speaks of.
pub open spec fn child_claim<F>(
    oracles: Seq<MultilinearPolyOracle<F>>,
    claim: ClaimSpec<F>,
    tree: ProofSpec<F>,
    j: int,
) -> ClaimSpec<F> {
    let kid = child_keys(oracles, claim.key())[j];
    ClaimSpec {
        id: kid.0,
        point: kid.1,
        eval: child_entries(oracles[claim.id as int].variant, claim.eval, tree)[j].0,
    }
}

/// The verifier's reduction of a claim along its proof: the claims on
/// leaves that the proof reduces the claim to, in the order of a
/// depth-first walk through the oracle's structure. The reduction fails
/// with `SubproofMismatch` where the proof has not the form that the
/// oracle asks for, and with `IncorrectEvaluation` where the value of a
/// claim does not follow from the values of its children.
pub open spec fn verified<F: Field>(
    oracles: Seq<MultilinearPolyOracle<F>>,
    claim: ClaimSpec<F>,
    tree: ProofSpec<F>,
) -> Result<Leaves<F>, VerificationError>
    decreases claim.id, 1int, 0nat,
{
    let variant = oracles[claim.id as int].variant;
    if !shape_matches(variant, tree) {
        Err(VerificationError::SubproofMismatch)
    } else if is_leaf(variant) {
        Ok(leaf_of(variant, claim))
    } else if !value_checks(oracles, claim, tree) {
        Err(VerificationError::IncorrectEvaluation)
    } else {
        verified_children(oracles, claim, tree, child_keys(oracles, claim.key()).len())
    }
}

/// The verifier's reduction of the first `n` child claims of `claim`.
pub open spec fn verified_children<F: Field>(
    oracles: Seq<MultilinearPolyOracle<F>>,
    claim: ClaimSpec<F>,
    tree: ProofSpec<F>,
    n: nat,
) -> Result<Leaves<F>, VerificationError>
    decreases claim.id, 0int, n,
{
    if n == 0 {
        Ok(Leaves::none())
    } else {
        match verified_children(oracles, claim, tree, (n - 1) as nat) {
            Err(e) => Err(e),
            Ok(before) => {
                let child = child_claim(oracles, claim, tree, n - 1);
                let entries = child_entries(oracles[claim.id as int].variant, claim.eval, tree);
                if child.id < claim.id {
                    match verified(oracles, child, entries[n - 1].1) {
                        Err(e) => Err(e),
                        Ok(leaves) => Ok(before.append(leaves)),
                    }
                } else {
                    Err(VerificationError::SubproofMismatch)
                }
            },
        }
    }
}

/// The claims that a verification has handed on so far.
pub struct VerifiedLeaves<F> {
    /// The claims on committed polynomials.
    pub committed: Vec<EvalcheckMultilinearClaim<F>>,
    /// The claims on shifted and packed polynomials.
    pub bivariate: Vec<EvalcheckMultilinearClaim<F>>,
    /// The claims on transparent polynomials.
    pub transparent: Vec<EvalcheckMultilinearClaim<F>>,
}

impl<F: Field> VerifiedLeaves<F> {
    /// The claims as mathematical claims.
    pub open spec fn leaves(&self) -> Leaves<F> {
        Leaves {
            committed: claims_view(self.committed@),
            bivariate: claims_view(self.bivariate@),
            transparent: claims_view(self.transparent@),
        }
    }

    /// No claims.
    pub fn new() -> (out: Self)
        ensures
            out.leaves() == Leaves::<F>::none(),
    {
        let out = VerifiedLeaves {
            committed: Vec::new(),
            bivariate: Vec::new(),
            transparent: Vec::new(),
        };
        assert(out.leaves().committed =~= Seq::empty());
        assert(out.leaves().bivariate =~= Seq::empty());
        assert(out.leaves().transparent =~= Seq::empty());
        out
    }
}

/// Appending is associative, and appending nothing changes nothing.
pub proof fn lemma_leaves_append<F>(a: Leaves<F>, b: Leaves<F>, c: Leaves<F>)
    ensures
        a.append(b).append(c) == a.append(b.append(c)),
        a.append(Leaves::none()) == a,
        Leaves::<F>::none().append(a) == a,
{
    assert(a.append(b).append(c).committed =~= a.append(b.append(c)).committed);
    assert(a.append(b).append(c).bivariate =~= a.append(b.append(c)).bivariate);
    assert(a.append(b).append(c).transparent =~= a.append(b.append(c)).transparent);
    assert(a.append(Leaves::none()).committed =~= a.committed);
    assert(a.append(Leaves::none()).bivariate =~= a.bivariate);
    assert(a.append(Leaves::none()).transparent =~= a.transparent);
    assert(Leaves::<F>::none().append(a).committed =~= a.committed);
    assert(Leaves::<F>::none().append(a).bivariate =~= a.bivariate);
    assert(Leaves::<F>::none().append(a).transparent =~= a.transparent);
}

/// What a verification owes: on success the claims on leaves that the
/// proof reduces the claim to are appended to those handed on before.
pub open spec fn verify_outcome<F: Field>(
    oracles: Seq<MultilinearPolyOracle<F>>,
    claim: ClaimSpec<F>,
    tree: ProofSpec<F>,
    before: Leaves<F>,
    after: Leaves<F>,
    r: Result<(), VerificationError>,
) -> bool {
    match r {
        Ok(()) => verified(oracles, claim, tree) is Ok && after == before.append(
            verified(oracles, claim, tree)->Ok_0,
        ),
        Err(e) => verified(oracles, claim, tree) == Err::<Leaves<F>, VerificationError>(e),
    }
}

/// Verifies a claim against its proof: follows the proof along the
/// structure of the claim's oracle, checks that the value of every claim
/// follows from the values of its children, and hands the claims on the
/// leaves on, in the order of a depth-first walk.
pub fn verify_multilinear<F: Field>(
    oracles: &MultilinearOracleSet<F>,
    evalcheck_claim: EvalcheckMultilinearClaim<F>,
    evalcheck_proof: &EvalcheckProof<F>,
    out: &mut VerifiedLeaves<F>,
) -> (r: Result<(), VerificationError>)
    requires
        oracles.wf(),
        claim_ok(oracles.oracles@, evalcheck_claim@),
    ensures
        verify_outcome(
            oracles.oracles@,
            evalcheck_claim@,
            evalcheck_proof@,
            old(out).leaves(),
            final(out).leaves(),
            r,
        ),
    decreases evalcheck_claim.id,
{
    let ghost o = oracles.oracles@;
    let ghost claim = evalcheck_claim@;
    let ghost tree = evalcheck_proof@;
    let ghost start = out.leaves();
    let ghost kids = child_keys(o, claim.key());
    let id = evalcheck_claim.id;
    let eval = evalcheck_claim.eval;
    proof {
        assert(oracle_fits(o, id as int));
        lemma_leaves_append(start, Leaves::none(), Leaves::none());
    }
    match &oracles.oracle(id).variant {
        OracleVariant::Committed => {
            match evalcheck_proof {
                EvalcheckProof::Committed => {
                    let ghost prior = out.committed@;
                    out.committed.push(evalcheck_claim);
                    assert(claims_view(out.committed@) =~= claims_view(prior) + seq![claim]);
                    assert(start.bivariate + Seq::empty() =~= start.bivariate);
                    assert(start.transparent + Seq::empty() =~= start.transparent);
                    Ok(())
                },
                _ => Err(VerificationError::SubproofMismatch),
            }
        },
        OracleVariant::Transparent { .. } => {
            match evalcheck_proof {
                EvalcheckProof::Transparent => {
                    let ghost prior = out.transparent@;
                    out.transparent.push(evalcheck_claim);
                    assert(claims_view(out.transparent@) =~= claims_view(prior) + seq![claim]);
                    assert(start.bivariate + Seq::empty() =~= start.bivariate);
                    assert(start.committed + Seq::empty() =~= start.committed);
                    Ok(())
                },
                _ => Err(VerificationError::SubproofMismatch),
            }
        },
        OracleVariant::Shifted { .. } => {
            match evalcheck_proof {
                EvalcheckProof::Shifted => {
                    let ghost prior = out.bivariate@;
                    out.bivariate.push(evalcheck_claim);
                    assert(claims_view(out.bivariate@) =~= claims_view(prior) + seq![claim]);
                    assert(start.committed + Seq::empty() =~= start.committed);
                    assert(start.transparent + Seq::empty() =~= start.transparent);
                    Ok(())
                },
                _ => Err(VerificationError::SubproofMismatch),
            }
        },
        OracleVariant::Packed { .. } => {
            match evalcheck_proof {
                EvalcheckProof::Packed => {
                    let ghost prior = out.bivariate@;
                    out.bivariate.push(evalcheck_claim);
                    assert(claims_view(out.bivariate@) =~= claims_view(prior) + seq![claim]);
                    assert(start.committed + Seq::empty() =~= start.committed);
                    assert(start.transparent + Seq::empty() =~= start.transparent);
                    Ok(())
                },
                _ => Err(VerificationError::SubproofMismatch),
            }
        },
        OracleVariant::Repeating { inner, .. } => {
            match evalcheck_proof {
                EvalcheckProof::Repeating(subproof) => {
                    proof {
                        lemma_child_keys_ok(o, claim.key(), 0);
                    }
                    let n_vars = oracles.n_vars(*inner);
                    let subclaim = EvalcheckMultilinearClaim {
                        id: *inner,
                        eval_point: prefix_point(&evalcheck_claim.eval_point, n_vars),
                        eval,
                    };
                    assert(subclaim@ == child_claim(o, claim, tree, 0));
                    assert(verified_children(o, claim, tree, 0) == Ok::<
                        Leaves<F>,
                        VerificationError,
                    >(Leaves::none()));
                    let r = verify_multilinear(oracles, subclaim, subproof, out);
                    proof {
                        if r is Ok {
                            lemma_leaves_append(
                                Leaves::none(),
                                verified(o, subclaim@, subproof@)->Ok_0,
                                Leaves::none(),
                            );
                        }
                    }
                    r
                },
                _ => Err(VerificationError::SubproofMismatch),
            }
        },
        OracleVariant::Projected { inner, values, variant } => {
            proof {
                lemma_child_keys_ok(o, claim.key(), 0);
            }
            let subclaim = EvalcheckMultilinearClaim {
                id: *inner,
                eval_point: projected_eval_point(&evalcheck_claim.eval_point, values, *variant),
                eval,
            };
            assert(subclaim@ == child_claim(o, claim, tree, 0));
            assert(verified_children(o, claim, tree, 0) == Ok::<Leaves<F>, VerificationError>(
                Leaves::none(),
            ));
            let r = verify_multilinear(oracles, subclaim, evalcheck_proof, out);
            proof {
                if r is Ok {
                    lemma_leaves_append(
                        Leaves::none(),
                        verified(o, subclaim@, tree)->Ok_0,
                        Leaves::none(),
                    );
                }
            }
            r
        },
        OracleVariant::LinearCombination { offset, terms } => {
            let subproofs = match evalcheck_proof {
                EvalcheckProof::LinearCombination { subproofs } => subproofs,
                _ => {
                    return Err(VerificationError::SubproofMismatch);
                },
            };
            if subproofs.len() != terms.len() {
                return Err(VerificationError::SubproofMismatch);
            }
            let ghost entries = tree->subproofs;
            let mut sum = *offset;
            let mut i: usize = 0;
            while i < terms.len()
                invariant
                    i <= terms@.len(),
                    subproofs@.len() == terms@.len(),
                    entries.len() == terms@.len(),
                    forall|k: int|
                        0 <= k < entries.len() ==> (#[trigger] entries[k]).0 == subproofs@[k].0,
                    sum == combination_value(*offset, terms@, entry_evals(entries), i as nat),
                decreases terms@.len() - i,
            {
                assert(entry_evals(entries)[i as int] == entries[i as int].0);
                sum = sum.add(terms[i].1.mul(subproofs[i].0));
                i += 1;
            }
            if !sum.is_equal(&eval) {
                return Err(VerificationError::IncorrectEvaluation);
            }
            let mut j: usize = 0;
            while j < terms.len()
                invariant
                    j <= terms@.len(),
                    oracles.wf(),
                    o == oracles.oracles@,
                    claim == evalcheck_claim@,
                    tree == evalcheck_proof@,
                    id == evalcheck_claim.id,
                    claim_ok(o, claim),
                    subproofs@.len() == terms@.len(),
                    o[id as int].variant == (OracleVariant::LinearCombination {
                        offset: *offset,
                        terms: *terms,
                    }),
                    tree->subproofs.len() == terms@.len(),
                    tree is LinearCombination,
                    forall|k: int|
                        0 <= k < terms@.len() ==> (#[trigger] tree->subproofs[k]) == (
                            subproofs@[k].0,
                            subproofs@[k].1@,
                        ),
                    kids == child_keys(o, claim.key()),
                    kids.len() == terms@.len(),
                    shape_matches(o[id as int].variant, tree),
                    value_checks(o, claim, tree),
                    verified_children(o, claim, tree, j as nat) is Ok,
                    out.leaves() == start.append(
                        verified_children(o, claim, tree, j as nat)->Ok_0,
                    ),
                decreases terms@.len() - j,
            {
                proof {
                    lemma_child_keys_ok(o, claim.key(), j as int);
                }
                let subclaim = EvalcheckMultilinearClaim {
                    id: terms[j].0,
                    eval_point: clone_point(&evalcheck_claim.eval_point),
                    eval: subproofs[j].0,
                };
                assert(subclaim@ == child_claim(o, claim, tree, j as int));
                let ghost before = verified_children(o, claim, tree, j as nat)->Ok_0;
                match verify_multilinear(oracles, subclaim, &subproofs[j].1, out) {
                    Ok(()) => {
                        proof {
                            lemma_leaves_append(
                                start,
                                before,
                                verified(o, subclaim@, subproofs@[j as int].1@)->Ok_0,
                            );
                        }
                    },
                    Err(e) => {
                        proof {
                            assert(verified_children(o, claim, tree, (j + 1) as nat) == Err::<
                                Leaves<F>,
                                VerificationError,
                            >(e));
                            lemma_verified_children_fail(o, claim, tree, (j + 1) as nat, kids.len());
                        }
                        return Err(e);
                    },
                }
                j += 1;
            }
            Ok(())
        },
        OracleVariant::ZeroPadded { inner } => {
            let (inner_eval, subproof) = match evalcheck_proof {
                EvalcheckProof::ZeroPadded(inner_eval, subproof) => (*inner_eval, subproof),
                _ => {
                    return Err(VerificationError::SubproofMismatch);
                },
            };
            proof {
                lemma_child_keys_ok(o, claim.key(), 0);
            }
            let inner_n_vars = oracles.n_vars(*inner);
            let mut factor = F::one_value();
            let mut i: usize = inner_n_vars;
            while i < evalcheck_claim.eval_point.len()
                invariant
                    inner_n_vars <= i <= evalcheck_claim.eval_point@.len(),
                    factor == padding_factor(
                        evalcheck_claim.eval_point@,
                        inner_n_vars as nat,
                        i as nat,
                    ),
                decreases evalcheck_claim.eval_point@.len() - i,
            {
                factor = factor.mul(F::one_value().sub(evalcheck_claim.eval_point[i]));
                i += 1;
            }
            if !eval.is_equal(&inner_eval.mul(factor)) {
                return Err(VerificationError::IncorrectEvaluation);
            }
            let subclaim = EvalcheckMultilinearClaim {
                id: *inner,
                eval_point: prefix_point(&evalcheck_claim.eval_point, inner_n_vars),
                eval: inner_eval,
            };
            assert(subclaim@ == child_claim(o, claim, tree, 0));
            assert(verified_children(o, claim, tree, 0) == Ok::<Leaves<F>, VerificationError>(
                Leaves::none(),
            ));
            let r = verify_multilinear(oracles, subclaim, subproof, out);
            proof {
                if r is Ok {
                    lemma_leaves_append(
                        Leaves::none(),
                        verified(o, subclaim@, subproof@)->Ok_0,
                        Leaves::none(),
                    );
                }
            }
            r
        },
    }
}

/// A reduction of children that has failed stays failed, with the same
/// error, however many more children are taken.
pub proof fn lemma_verified_children_fail<F: Field>(
    oracles: Seq<MultilinearPolyOracle<F>>,
    claim: ClaimSpec<F>,
    tree: ProofSpec<F>,
    n: nat,
    m: nat,
)
    requires
        n <= m,
        verified_children(oracles, claim, tree, n) is Err,
    ensures
        verified_children(oracles, claim, tree, m) == verified_children(oracles, claim, tree, n),
    decreases m,
{
    if m > n {
        lemma_verified_children_fail(oracles, claim, tree, n, (m - 1) as nat);
    }
}

/// The verifier's reduction of the first `n` claims along their proofs,
/// claim after claim.
pub open spec fn verified_all<F: Field>(
    oracles: Seq<MultilinearPolyOracle<F>>,
    claims: Seq<ClaimSpec<F>>,
    trees: Seq<ProofSpec<F>>,
    n: nat,
) -> Result<Leaves<F>, VerificationError>
    decreases n,
{
    if n == 0 {
        Ok(Leaves::none())
    } else {
        match verified_all(oracles, claims, trees, (n - 1) as nat) {
            Err(e) => Err(e),
            Ok(before) => match verified(oracles, claims[n - 1], trees[n - 1]) {
                Err(e) => Err(e),
                Ok(leaves) => Ok(before.append(leaves)),
            },
        }
    }
}

/// A reduction that has failed stays failed, with the same error, however
/// many more claims are taken.
pub proof fn lemma_verified_all_fail<F: Field>(
    oracles: Seq<MultilinearPolyOracle<F>>,
    claims: Seq<ClaimSpec<F>>,
    trees: Seq<ProofSpec<F>>,
    n: nat,
    m: nat,
)
    requires
        n <= m,
        verified_all(oracles, claims, trees, n) is Err,
    ensures
        verified_all(oracles, claims, trees, m) == verified_all(oracles, claims, trees, n),
    decreases m,
{
    if m > n {
        lemma_verified_all_fail(oracles, claims, trees, n, (m - 1) as nat);
    }
}

/// Verifies a batch of claims against their proofs, claim after claim,
/// and returns the claims on leaves that the proofs reduce them to.
///
/// Fails with `SubproofMismatch` where there is not one proof for each
/// claim, and else with the error of the first claim that does not verify.
pub fn verify<F: Field>(
    oracles: &MultilinearOracleSet<F>,
    evalcheck_claims: &Vec<EvalcheckMultilinearClaim<F>>,
    evalcheck_proofs: &Vec<EvalcheckProof<F>>,
) -> (r: Result<VerifiedLeaves<F>, VerificationError>)
    requires
        oracles.wf(),
        claims_ok(oracles.oracles@, claims_view(evalcheck_claims@)),
    ensures
        evalcheck_claims@.len() != evalcheck_proofs@.len() ==> r is Err && r->Err_0
            == VerificationError::SubproofMismatch,
        evalcheck_claims@.len() == evalcheck_proofs@.len() ==> match r {
            Ok(out) => verified_all(
                oracles.oracles@,
                claims_view(evalcheck_claims@),
                proofs_view(evalcheck_proofs@),
                evalcheck_claims@.len(),
            ) == Ok::<Leaves<F>, VerificationError>(out.leaves()),
            Err(e) => verified_all(
                oracles.oracles@,
                claims_view(evalcheck_claims@),
                proofs_view(evalcheck_proofs@),
                evalcheck_claims@.len(),
            ) == Err::<Leaves<F>, VerificationError>(e),
        },
{
    if evalcheck_claims.len() != evalcheck_proofs.len() {
        return Err(VerificationError::SubproofMismatch);
    }
    let ghost o = oracles.oracles@;
    let ghost claims = claims_view(evalcheck_claims@);
    let ghost trees = proofs_view(evalcheck_proofs@);
    let mut out = VerifiedLeaves::new();
    let mut i: usize = 0;
    while i < evalcheck_claims.len()
        invariant
            i <= evalcheck_claims@.len(),
            evalcheck_claims@.len() == evalcheck_proofs@.len(),
            oracles.wf(),
            o == oracles.oracles@,
            claims == claims_view(evalcheck_claims@),
            trees == proofs_view(evalcheck_proofs@),
            claims_ok(o, claims),
            verified_all(o, claims, trees, i as nat) == Ok::<Leaves<F>, VerificationError>(
                out.leaves(),
            ),
        decreases evalcheck_claims@.len() - i,
    {
        let claim = evalcheck_claims[i].duplicate();
        proof {
            assert(claim@ == claims[i as int]);
            assert(claim_ok(o, claims[i as int]));
            assert(evalcheck_proofs@[i as int]@ == trees[i as int]);
        }
        match verify_multilinear(oracles, claim, &evalcheck_proofs[i], &mut out) {
            Ok(()) => {},
            Err(e) => {
                proof {
                    assert(verified_all(o, claims, trees, (i + 1) as nat) == Err::<
                        Leaves<F>,
                        VerificationError,
                    >(e));
                    lemma_verified_all_fail(
                        o,
                        claims,
                        trees,
                        (i + 1) as nat,
                        evalcheck_claims@.len(),
                    );
                }
                return Err(e);
            },
        }
        i += 1;
    }
    Ok(out)
}

/// Whether every claim is a valid claim on a shifted or packed oracle.
pub open spec fn bivariate_ok<F>(
    oracles: Seq<MultilinearPolyOracle<F>>,
    claims: Seq<ClaimSpec<F>>,
) -> bool {
    forall|i: int|
        0 <= i < claims.len() ==> claim_ok(oracles, #[trigger] claims[i]) && is_bivariate(
            oracles[claims[i].id as int].variant,
        )
}

/// Turns the claims on shifted and packed oracles that a verification has
/// handed on into sumcheck instances, claim after claim: adds the oracles
/// of each instance and the instance itself to the builder of its arity.
/// The prover does the same to the claims that it collects, so that both
/// come to the same oracles and the same instances.
pub fn add_sumcheck_constraints<F: Field>(
    oracles: &mut MultilinearOracleSet<F>,
    bivariate_claims: &Vec<EvalcheckMultilinearClaim<F>>,
    constraint_builders: &mut Vec<ConstraintSetBuilder<F>>,
) -> (r: Result<(), Error>)
    requires
        old(oracles).wf(),
        bivariate_ok(old(oracles).oracles@, claims_view(bivariate_claims@)),
    ensures
        final(oracles).wf(),
        r is Ok,
        oracles_extended(
            old(oracles).oracles@,
            final(oracles).oracles@,
            claims_view(bivariate_claims@),
            bivariate_claims@.len(),
        ),
        builders_view(final(constraint_builders)@) == builders_after(
            old(oracles).oracles@,
            builders_view(old(constraint_builders)@),
            claims_view(bivariate_claims@),
            bivariate_claims@.len(),
        ),
{
    let ghost start = oracles.oracles@;
    let ghost claims = claims_view(bivariate_claims@);
    let ghost builders = builders_view(constraint_builders@);
    proof {
        assert(start.take(start.len() as int) =~= start);
    }
    let mut i: usize = 0;
    while i < bivariate_claims.len()
        invariant
            i <= bivariate_claims@.len(),
            oracles.wf(),
            oracles_wf(start),
            claims == claims_view(bivariate_claims@),
            bivariate_ok(start, claims),
            extends(start, oracles.oracles@),
            oracles_extended(start, oracles.oracles@, claims, i as nat),
            builders_view(constraint_builders@) == builders_after(start, builders, claims, i as nat),
        decreases bivariate_claims@.len() - i,
    {
        let ghost before = oracles.oracles@;
        let ghost claim = claims[i as int];
        proof {
            lemma_extension_keeps_children(start, before, claim.key());
            assert(oracle_fits(start, claim.id as int));
            let inner = bivariate_inner(start[claim.id as int].variant);
            assert(before.take(start.len() as int)[inner as int] == before[inner as int]);
            assert(bivariate_claims@[i as int]@ == claim);
        }
        let meta = match EvalcheckProver::projected_bivariate_meta(oracles, &bivariate_claims[i]) {
            Ok(meta) => meta,
            Err(e) => {
                return Err(e);
            },
        };
        add_bivariate_sumcheck_to_constraints(
            meta,
            constraint_builders,
            meta.projected_n_vars,
            bivariate_claims[i].eval,
        );
        proof {
            let after = oracles.oracles@;
            assert(meta == meta_of(start, claims, i as int));
            assert(after.take(start.len() as int) =~= start) by {
                assert forall|k: int| 0 <= k < start.len() implies after[k] == start[k] by {
                    assert(after.take(before.len() as int)[k] == after[k]);
                    assert(before.take(start.len() as int)[k] == before[k]);
                }
            }
            assert forall|k: int| 0 <= k < i + 1 implies #[trigger] added_ok(
                start,
                after,
                claims,
                k,
            ) by {
                if k < i {
                    assert(added_ok(start, before, claims, k));
                    let m = meta_of(start, claims, k);
                    assert(after.take(before.len() as int)[m.multiplier_id as int]
                        == after[m.multiplier_id as int]);
                    if m.projected_id is Some {
                        assert(after.take(before.len() as int)[m.projected_id->0 as int]
                            == after[m.projected_id->0 as int]);
                    }
                }
            }
        }
        i += 1;
    }
    Ok(())
}

} // verus!
