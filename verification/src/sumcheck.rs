use vstd::prelude::*;
use crate::error::VerificationError;
use crate::evalcheck::{clone_point, EvalcheckMultilinearClaim};
use crate::field::Field;
use crate::oracle::OracleId;

verus! {

/// A claim that the product of two multilinear polynomials sums to `sum`
/// over the hypercube.
pub struct BivariateSumcheck<F> {
    /// The projected witness polynomial.
    pub projected_id: OracleId,
    /// The transparent multiplier.
    pub multiplier_id: OracleId,
    /// The claimed sum.
    pub sum: F,
}

/// The sumcheck claims over polynomials of `n_vars` variables.
pub struct ConstraintSet<F> {
    pub n_vars: usize,
    pub constraints: Vec<BivariateSumcheck<F>>,
}

/// Collects the sumcheck claims over polynomials of one arity.
pub struct ConstraintSetBuilder<F> {
    pub constraints: Vec<BivariateSumcheck<F>>,
}

impl<F: Field> ConstraintSetBuilder<F> {
    /// A builder without constraints.
    pub fn new() -> (b: Self)
        ensures
            b.constraints@.len() == 0,
    {
        ConstraintSetBuilder { constraints: Vec::new() }
    }

    /// Adds the claim that `projected_id * multiplier_id` sums to `sum`.
    pub fn add_sumcheck(&mut self, projected_id: OracleId, multiplier_id: OracleId, sum: F)
        ensures
            final(self).constraints@ == old(self).constraints@.push(
                BivariateSumcheck { projected_id, multiplier_id, sum },
            ),
    {
        self.constraints.push(BivariateSumcheck { projected_id, multiplier_id, sum });
    }
}

/// The constraint sets as pairs of arity and constraints.
pub open spec fn sets_view<F>(sets: Seq<ConstraintSet<F>>) -> Seq<(usize, Seq<BivariateSumcheck<F>>)> {
    Seq::new(sets.len(), |i: int| (sets[i].n_vars, sets[i].constraints@))
}

/// The constraint sets of the builders from position `from` on that hold
/// constraints, the highest arity first.
pub open spec fn sets_above<F>(
    builders: Seq<Seq<BivariateSumcheck<F>>>,
    from: nat,
) -> Seq<(usize, Seq<BivariateSumcheck<F>>)>
    decreases builders.len() - from,
{
    if from >= builders.len() {
        Seq::empty()
    } else if builders[from as int].len() > 0 {
        sets_above(builders, from + 1).push((from as usize, builders[from as int]))
    } else {
        sets_above(builders, from + 1)
    }
}

/// Every constraint set that is taken is the content of a builder that
/// holds constraints.
pub proof fn lemma_sets_above_members<F>(
    builders: Seq<Seq<BivariateSumcheck<F>>>,
    from: nat,
    s: int,
)
    requires
        0 <= s < sets_above(builders, from).len(),
        builders.len() <= usize::MAX,
    ensures
        from <= sets_above(builders, from)[s].0 < builders.len(),
        sets_above(builders, from)[s].1 == builders[sets_above(builders, from)[s].0 as int],
        sets_above(builders, from)[s].1.len() > 0,
    decreases builders.len() - from,
{
    if from < builders.len() {
        let rest = sets_above(builders, from + 1);
        if s < rest.len() {
            lemma_sets_above_members(builders, from + 1, s);
        }
    }
}

/// Builders without constraints give no constraint set.
pub proof fn lemma_sets_above_of_empty<F>(builders: Seq<Seq<BivariateSumcheck<F>>>, from: nat)
    requires
        forall|k: int| 0 <= k < builders.len() ==> (#[trigger] builders[k]).len() == 0,
    ensures
        sets_above(builders, from).len() == 0,
    decreases builders.len() - from,
{
    if from < builders.len() {
        lemma_sets_above_of_empty(builders, from + 1);
    }
}

/// A claim that a polynomial of `n_vars` variables, or a composition of
/// such polynomials, sums to `sum` over the hypercube.
pub struct SumcheckClaim<F> {
    /// The oracle of the polynomial.
    pub poly: OracleId,
    /// The number of its variables.
    pub n_vars: usize,
    /// The claimed sum.
    pub sum: F,
}

/// The message of one round: the coefficients of the round polynomial,
/// the constant one first, without the coefficient of the highest degree.
pub struct SumcheckRound<F> {
    pub coeffs: Vec<F>,
}

/// A sumcheck proof: the messages of the rounds.
pub struct SumcheckProof<F> {
    pub rounds: Vec<SumcheckRound<F>>,
}

/// The sum of the elements.
pub open spec fn sum_of<F: Field>(values: Seq<F>) -> F
    decreases values.len(),
{
    if values.len() == 0 {
        F::zero()
    } else {
        sum_of(values.drop_last()).add_spec(values.last())
    }
}

/// The value at `x` of the polynomial with the given coefficients, the
/// constant one first.
pub open spec fn univariate_value<F: Field>(coeffs: Seq<F>, x: F) -> F
    decreases coeffs.len(),
{
    if coeffs.len() == 0 {
        F::zero()
    } else {
        coeffs[0].add_spec(x.mul_spec(univariate_value(coeffs.drop_first(), x)))
    }
}

/// The coefficient of the highest degree that the prover left out. The
/// round polynomial has to take the values `r(0)` and `r(1)` that add to
/// the sum claimed for the round: `r(0)` is the constant coefficient and
/// `r(1)` the sum of all coefficients.
pub open spec fn missing_coeff<F: Field>(round_sum: F, coeffs: Seq<F>) -> F {
    let first = if coeffs.len() == 0 {
        F::zero()
    } else {
        coeffs[0]
    };
    round_sum.sub_spec(first).sub_spec(sum_of(coeffs))
}

/// The sum claimed for the next round: the value of the round polynomial
/// at the challenge.
pub open spec fn next_round_sum<F: Field>(round_sum: F, coeffs: Seq<F>, challenge: F) -> F {
    univariate_value(coeffs.push(missing_coeff(round_sum, coeffs)), challenge)
}

/// The sum claimed after the first `n` rounds.
pub open spec fn reduced_sum<F: Field>(
    sum: F,
    rounds: Seq<SumcheckRound<F>>,
    challenges: Seq<F>,
    n: nat,
) -> F
    decreases n,
{
    if n == 0 {
        sum
    } else {
        next_round_sum(
            reduced_sum(sum, rounds, challenges, (n - 1) as nat),
            rounds[n - 1].coeffs@,
            challenges[n - 1],
        )
    }
}

/// Evaluates the polynomial with the given coefficients, the constant one
/// first, at `x`.
pub fn evaluate_univariate<F: Field>(coeffs: &Vec<F>, x: F) -> (r: F)
    ensures
        r == univariate_value(coeffs@, x),
{
    let mut acc = F::zero_value();
    let mut i: usize = coeffs.len();
    assert(coeffs@.skip(coeffs@.len() as int) =~= Seq::empty());
    while i > 0
        invariant
            i <= coeffs@.len(),
            acc == univariate_value(coeffs@.skip(i as int), x),
        decreases i,
    {
        i -= 1;
        assert(coeffs@.skip(i as int).drop_first() =~= coeffs@.skip(i + 1));
        acc = coeffs[i].add(x.mul(acc));
    }
    assert(coeffs@.skip(0) =~= coeffs@);
    acc
}

/// Reduces the claim of one round to the claim of the next: recovers the
/// coefficient that the prover left out and evaluates the round
/// polynomial at the challenge.
pub fn reduce_round_claim<F: Field>(round_sum: F, round: &SumcheckRound<F>, challenge: F) -> (r: F)
    ensures
        r == next_round_sum(round_sum, round.coeffs@, challenge),
{
    let first = if round.coeffs.len() == 0 {
        F::zero_value()
    } else {
        round.coeffs[0]
    };
    let mut total = F::zero_value();
    let mut i: usize = 0;
    assert(round.coeffs@.take(0) =~= Seq::empty());
    while i < round.coeffs.len()
        invariant
            i <= round.coeffs@.len(),
            total == sum_of(round.coeffs@.take(i as int)),
        decreases round.coeffs@.len() - i,
    {
        assert(round.coeffs@.take(i + 1).drop_last() =~= round.coeffs@.take(i as int));
        total = total.add(round.coeffs[i]);
        i += 1;
    }
    assert(round.coeffs@.take(round.coeffs@.len() as int) =~= round.coeffs@);
    let mut coeffs = clone_point(&round.coeffs);
    coeffs.push(round_sum.sub(first).sub(total));
    evaluate_univariate(&coeffs, challenge)
}

/// Verify a sumcheck to evalcheck reduction.
///
/// The proof has to hold one round for each variable of the claim, else
/// it is rejected for the number of its rounds. The challenges are those
/// that the verifier's challenger gives for the rounds, one for each. The
/// reduced claim says that the polynomial has, at the point of the
/// challenges, the value that the rounds reduce the claimed sum to.
pub fn verify<F: Field>(claim: &SumcheckClaim<F>, proof: SumcheckProof<F>, challenges: &Vec<F>) -> (r:
    Result<EvalcheckMultilinearClaim<F>, VerificationError>)
    requires
        challenges@.len() == proof.rounds@.len(),
    ensures
        proof.rounds@.len() != claim.n_vars ==> r == Err::<
            EvalcheckMultilinearClaim<F>,
            VerificationError,
        >(VerificationError::NumberOfRounds),
        proof.rounds@.len() == claim.n_vars ==> r is Ok && r->Ok_0.id == claim.poly
            && r->Ok_0.eval_point@ == challenges@ && r->Ok_0.eval == reduced_sum(
            claim.sum,
            proof.rounds@,
            challenges@,
            proof.rounds@.len(),
        ),
{
    let n_vars = claim.n_vars;
    let n_rounds = proof.rounds.len();
    if n_rounds != n_vars {
        return Err(VerificationError::NumberOfRounds);
    }
    let mut round_sum = claim.sum;
    let mut i: usize = 0;
    while i < n_rounds
        invariant
            i <= n_rounds,
            n_rounds == proof.rounds@.len(),
            challenges@.len() == n_rounds,
            round_sum == reduced_sum(claim.sum, proof.rounds@, challenges@, i as nat),
        decreases n_rounds - i,
    {
        round_sum = reduce_round_claim(round_sum, &proof.rounds[i], challenges[i]);
        i += 1;
    }
    Ok(
        EvalcheckMultilinearClaim {
            id: claim.poly,
            eval_point: clone_point(challenges),
            eval: round_sum,
        },
    )
}

} // verus!
