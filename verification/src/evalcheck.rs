use vstd::prelude::*;
use crate::field::Field;
use crate::oracle::OracleId;

verus! {

/// An evaluation point as a mathematical sequence of field elements.
pub type PointSpec<F> = Seq<F>;

/// The key under which a claim is filed: the oracle and the point.
pub type ClaimKey<F> = (OracleId, Seq<F>);

/// A claim that an oracle evaluates to `eval` at `eval_point`.
pub struct EvalcheckMultilinearClaim<F> {
    /// The oracle the claim is about.
    pub id: OracleId,
    /// The evaluation point.
    pub eval_point: Vec<F>,
    /// The claimed evaluation.
    pub eval: F,
}

/// The mathematical content of an [`EvalcheckMultilinearClaim`].
pub struct ClaimSpec<F> {
    pub id: OracleId,
    pub point: Seq<F>,
    pub eval: F,
}

impl<F> ClaimSpec<F> {
    /// The key of the claim.
    pub open spec fn key(self) -> ClaimKey<F> {
        (self.id, self.point)
    }
}

impl<F> View for EvalcheckMultilinearClaim<F> {
    type V = ClaimSpec<F>;

    open spec fn view(&self) -> ClaimSpec<F> {
        ClaimSpec { id: self.id, point: self.eval_point@, eval: self.eval }
    }
}

/// A proof of an evaluation claim. It mirrors the structure of the oracle
/// that the claim is about.
pub enum EvalcheckProof<F> {
    Transparent,
    Committed,
    Shifted,
    Packed,
    Repeating(Box<EvalcheckProof<F>>),
    LinearCombination { subproofs: Vec<(F, EvalcheckProof<F>)> },
    ZeroPadded(F, Box<EvalcheckProof<F>>),
}

/// The mathematical content of an [`EvalcheckProof`].
pub enum ProofSpec<F> {
    Transparent,
    Committed,
    Shifted,
    Packed,
    Repeating(Box<ProofSpec<F>>),
    LinearCombination { subproofs: Seq<(F, ProofSpec<F>)> },
    ZeroPadded(F, Box<ProofSpec<F>>),
}

impl<F> EvalcheckProof<F> {
    /// The proof as a mathematical tree.
    pub open spec fn tree(&self) -> ProofSpec<F>
        decreases self,
    {
        match self {
            EvalcheckProof::Transparent => ProofSpec::Transparent,
            EvalcheckProof::Committed => ProofSpec::Committed,
            EvalcheckProof::Shifted => ProofSpec::Shifted,
            EvalcheckProof::Packed => ProofSpec::Packed,
            EvalcheckProof::Repeating(inner) => ProofSpec::Repeating(Box::new(inner.tree())),
            EvalcheckProof::LinearCombination { subproofs } => ProofSpec::LinearCombination {
                subproofs: Seq::new(
                    subproofs@.len(),
                    |i: int|
                        if 0 <= i < subproofs@.len() {
                            (subproofs@[i].0, subproofs@[i].1.tree())
                        } else {
                            (subproofs@[0].0, ProofSpec::Transparent)
                        },
                ),
            },
            EvalcheckProof::ZeroPadded(eval, inner) => ProofSpec::ZeroPadded(
                *eval,
                Box::new(inner.tree()),
            ),
        }
    }
}

impl<F> View for EvalcheckProof<F> {
    type V = ProofSpec<F>;

    open spec fn view(&self) -> ProofSpec<F> {
        self.tree()
    }
}

/// Copies a point.
pub fn clone_point<F: Field>(point: &Vec<F>) -> (r: Vec<F>)
    ensures
        r@ == point@,
{
    let mut r: Vec<F> = Vec::new();
    let mut i: usize = 0;
    while i < point.len()
        invariant
            i <= point@.len(),
            r@ == point@.take(i as int),
        decreases point@.len() - i,
    {
        r.push(point[i]);
        i += 1;
    }
    r
}

/// Whether two points hold the same coordinates.
pub fn points_equal<F: Field>(a: &Vec<F>, b: &Vec<F>) -> (r: bool)
    ensures
        r == (a@ == b@),
{
    if a.len() != b.len() {
        return false;
    }
    let mut i: usize = 0;
    while i < a.len()
        invariant
            i <= a@.len(),
            a@.len() == b@.len(),
            forall|j: int| 0 <= j < i ==> a@[j] == b@[j],
        decreases a@.len() - i,
    {
        if !a[i].is_equal(&b[i]) {
            return false;
        }
        i += 1;
    }
    assert(a@ =~= b@);
    true
}

impl<F: Field> EvalcheckMultilinearClaim<F> {
    /// Copies the claim.
    pub fn duplicate(&self) -> (r: Self)
        ensures
            r@ == self@,
    {
        EvalcheckMultilinearClaim {
            id: self.id,
            eval_point: clone_point(&self.eval_point),
            eval: self.eval,
        }
    }
}

impl<F: Field> EvalcheckProof<F> {
    /// Copies the proof.
    #[verifier::loop_isolation(false)]
    pub fn duplicate(&self) -> (r: Self)
        ensures
            r@ == self@,
        decreases self,
    {
        match self {
            EvalcheckProof::Transparent => EvalcheckProof::Transparent,
            EvalcheckProof::Committed => EvalcheckProof::Committed,
            EvalcheckProof::Shifted => EvalcheckProof::Shifted,
            EvalcheckProof::Packed => EvalcheckProof::Packed,
            EvalcheckProof::Repeating(inner) => EvalcheckProof::Repeating(
                Box::new(inner.duplicate()),
            ),
            EvalcheckProof::LinearCombination { subproofs } => {
                let mut copies: Vec<(F, EvalcheckProof<F>)> = Vec::new();
                let mut i: usize = 0;
                while i < subproofs.len()
                    invariant
                        i <= subproofs@.len(),
                        copies@.len() == i,
                        forall|j: int|
                            0 <= j < i ==> (#[trigger] copies@[j]).0 == subproofs@[j].0
                                && copies@[j].1@ == subproofs@[j].1@,
                    decreases subproofs@.len() - i,
                {
                    let sub = &subproofs[i];
                    proof {
                        vstd::std_specs::vec::axiom_vec_index_decreases(*subproofs, i as int);
                    }
                    copies.push((sub.0, sub.1.duplicate()));
                    i += 1;
                }
                let r = EvalcheckProof::LinearCombination { subproofs: copies };
                assert(r@->subproofs =~= self@->subproofs);
                r
            },
            EvalcheckProof::ZeroPadded(eval, inner) => EvalcheckProof::ZeroPadded(
                *eval,
                Box::new(inner.duplicate()),
            ),
        }
    }
}

} // verus!
