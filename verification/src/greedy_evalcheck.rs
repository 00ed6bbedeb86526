use vstd::prelude::*;
use vstd::bytes::spec_u64_to_le_bytes;
use crate::completion::complete_all;
use crate::depth::{
    builders_within, claims_within, constraint_within, depth, lemma_builders_after_within,
    lemma_collect_all_depth, lemma_max_depth_bounds, max_depth,
};
use crate::error::Error;
use crate::evalcheck::{ClaimSpec, EvalcheckMultilinearClaim, EvalcheckProof};
use crate::field::Field;
use crate::oracle::{MultilinearOracleSet, MultilinearPolyOracle};
use crate::prove::{claims_ok, claims_view, leaf_claims, proofs_view, reached, EvalcheckProver};
use crate::reduction::{empty_state, ProverState};
use crate::subclaims::{empty_builders, is_bivariate};
use crate::sumcheck::{
    lemma_sets_above_members, lemma_sets_above_of_empty, sets_above, sets_view, BivariateSumcheck,
    ConstraintSet,
};
use crate::transcript::{proofs_bytes, serialize_evalcheck_proofs, write_u64};
use crate::witness::{witness_fits, MultilinearExtensionIndex};

verus! {

/// What the driver of the greedy evalcheck has to do next.
pub enum GreedyAction<F> {
    /// Prove the sumcheck instances, and resume with the evalcheck claims
    /// that the sumcheck protocol reduces them to.
    ProveSumchecks { constraints: Vec<ConstraintSet<F>> },
    /// Nothing: no sumcheck instance is left. The claims on committed
    /// polynomials go to the commitment scheme.
    Finish { committed_claims: Vec<EvalcheckMultilinearClaim<F>> },
}

/// One step of the greedy evalcheck: the bytes that it adds to the
/// transcript and to the advice, and what is to be done next.
pub struct GreedyStep<F> {
    /// The proofs of the claims of this step, serialized.
    pub transcript: Vec<u8>,
    /// The bytes for the advice: the number of proofs after the first
    /// step, and the number of sumcheck rounds at the end.
    pub advice: Vec<u8>,
    /// What is to be done next.
    pub action: GreedyAction<F>,
}

/// The greedy evalcheck: evalcheck claims are reduced, the sumcheck
/// instances that this leaves are proved by the sumcheck protocol, the
/// evalcheck claims that this leaves are reduced in turn, and so on until
/// no sumcheck instance is left.
///
/// The sumcheck protocol is not part of this library. The driver runs it
/// between two steps and hands its claims to [`Self::resume`].
pub struct GreedyEvalcheckProver<F> {
    prover: EvalcheckProver<F>,
    rounds: u64,
}

impl<F: Field> GreedyEvalcheckProver<F> {
    /// The evalcheck prover that does the reductions.
    pub closed spec fn prover_spec(&self) -> EvalcheckProver<F> {
        self.prover
    }

    /// The number of sumcheck rounds so far.
    pub closed spec fn rounds_spec(&self) -> u64 {
        self.rounds
    }

    /// The invariant between two steps: that of the evalcheck prover,
    /// which holds no sumcheck instance that was not handed out.
    pub closed spec fn inv(&self) -> bool {
        self.prover.inv() && self.prover.builders_spec() == empty_builders::<F>(
            self.prover.builders_spec().len(),
        )
    }

    /// What a step owes, where `before` is the evalcheck prover at its
    /// start, `after` the one at its end, and `rounds` the number of
    /// sumcheck rounds at its end. The claims are proved; the transcript
    /// takes the proofs; the step asks for the sumcheck instances that
    /// the proving left, the highest arity first, or finishes where it
    /// left none, with the accumulated claims on committed polynomials
    /// and the number of rounds as the last bytes of the advice.
    pub open spec fn stepped(
        before: EvalcheckProver<F>,
        after: EvalcheckProver<F>,
        claims: Seq<ClaimSpec<F>>,
        rounds: u64,
        advice_head: Seq<u8>,
        step: GreedyStep<F>,
    ) -> bool {
        exists|mid: EvalcheckProver<F>, proofs: Vec<EvalcheckProof<F>>|
            {
                let sets = sets_above(mid.builders_spec(), 0);
                &&& #[trigger] before.prove_post(&mid, claims, Ok(proofs))
                &&& step.transcript@ == proofs_bytes(proofs_view(proofs@), proofs@.len())
                &&& after.state() == mid.state()
                &&& after.oracles_spec() == mid.oracles_spec()
                &&& after.columns_spec() == mid.columns_spec()
                &&& after.builders_spec() == empty_builders::<F>(mid.builders_spec().len())
                &&& match step.action {
                    GreedyAction::ProveSumchecks { constraints } => {
                        &&& sets.len() > 0
                        &&& sets_view(constraints@) == sets
                        &&& after.committed_spec() == mid.committed_spec()
                        &&& step.advice@ == advice_head
                    },
                    GreedyAction::Finish { committed_claims } => {
                        &&& sets.len() == 0
                        &&& claims_view(committed_claims@) == mid.committed_spec()
                        &&& after.committed_spec() == Seq::<ClaimSpec<F>>::empty()
                        &&& step.advice@ == advice_head + spec_u64_to_le_bytes(rounds)
                    },
                }
            }
    }

    /// Proves the claims and says what is to be done next.
    fn step(&mut self, claims: Vec<EvalcheckMultilinearClaim<F>>, advice: Vec<u8>) -> (r: Result<
        GreedyStep<F>,
        Error,
    >)
        requires
            old(self).inv(),
            claims_ok(old(self).prover_spec().oracles_spec(), claims_view(claims@)),
        ensures
            final(self).rounds_spec() == old(self).rounds_spec(),
            match r {
                Ok(step) => final(self).inv() && Self::stepped(
                    old(self).prover_spec(),
                    final(self).prover_spec(),
                    claims_view(claims@),
                    old(self).rounds_spec(),
                    advice@,
                    step,
                ),
                Err(e) => old(self).prover_spec().prove_post(
                    &final(self).prover_spec(),
                    claims_view(claims@),
                    Err(e),
                ),
            },
    {
        let ghost before = self.prover;
        let ghost given = claims_view(claims@);
        let proofs = match self.prover.prove(claims) {
            Ok(proofs) => proofs,
            Err(e) => {
                return Err(e);
            },
        };
        let ghost mid = self.prover;
        let mut transcript: Vec<u8> = Vec::new();
        serialize_evalcheck_proofs(&mut transcript, &proofs);
        assert(transcript@ =~= proofs_bytes(proofs_view(proofs@), proofs@.len()));
        let constraints = match self.prover.take_new_sumchecks_constraints() {
            Ok(constraints) => constraints,
            Err(e) => {
                return Err(Error::Oracle(e));
            },
        };
        let mut advice = advice;
        let ghost advice_head = advice@;
        let action = if constraints.len() == 0 {
            write_u64(&mut advice, self.rounds);
            let committed_claims = self.prover.take_committed_eval_claims();
            GreedyAction::Finish { committed_claims }
        } else {
            GreedyAction::ProveSumchecks { constraints }
        };
        let step = GreedyStep { transcript, advice, action };
        proof {
            assert(before.prove_post(&mid, given, Ok(proofs)));
            assert(Self::stepped(before, self.prover, given, self.rounds, advice_head, step));
        }
        Ok(step)
    }

    /// Starts the greedy evalcheck on the initial claims. The advice
    /// begins with the number of their proofs.
    pub fn start(
        oracles: MultilinearOracleSet<F>,
        witness_index: MultilinearExtensionIndex<F>,
        claims: Vec<EvalcheckMultilinearClaim<F>>,
    ) -> (r: Result<(Self, GreedyStep<F>), Error>)
        requires
            oracles.wf(),
            witness_fits(oracles.oracles@, witness_index.columns@),
            claims_ok(oracles.oracles@, claims_view(claims@)),
        ensures
            match r {
                Ok((machine, step)) => machine.inv() && machine.rounds_spec() == 0 && exists|
                    fresh: EvalcheckProver<F>,
                |
                    {
                        &&& #[trigger] fresh.inv()
                        &&& fresh.oracles_spec() == oracles.oracles@
                        &&& fresh.columns_spec() == witness_index.columns@
                        &&& fresh.state() == empty_state::<F>()
                        &&& fresh.committed_spec() == Seq::<ClaimSpec<F>>::empty()
                        &&& fresh.builders_spec() == Seq::<Seq<BivariateSumcheck<F>>>::empty()
                        &&& Self::stepped(
                            fresh,
                            machine.prover_spec(),
                            claims_view(claims@),
                            0,
                            spec_u64_to_le_bytes(claims@.len() as u64),
                            step,
                        )
                    },
                Err(e) => exists|fresh: EvalcheckProver<F>, after: EvalcheckProver<F>|
                    {
                        &&& #[trigger] fresh.prove_post(&after, claims_view(claims@), Err(e))
                        &&& fresh.oracles_spec() == oracles.oracles@
                        &&& fresh.columns_spec() == witness_index.columns@
                        &&& fresh.state() == empty_state::<F>()
                    },
            },
    {
        let prover = EvalcheckProver::new(oracles, witness_index);
        let ghost fresh = prover;
        let mut machine = GreedyEvalcheckProver { prover, rounds: 0 };
        proof {
            assert(empty_builders::<F>(0) =~= Seq::empty());
        }
        let mut advice: Vec<u8> = Vec::new();
        // one proof per claim
        write_u64(&mut advice, claims.len() as u64);
        assert(advice@ =~= spec_u64_to_le_bytes(claims@.len() as u64));
        match machine.step(claims, advice) {
            Ok(step) => Ok((machine, step)),
            Err(e) => Err(e),
        }
    }

    /// Resumes the greedy evalcheck after a round of the sumcheck
    /// protocol, with the evalcheck claims that the round has left.
    pub fn resume(&mut self, new_evalcheck_claims: Vec<EvalcheckMultilinearClaim<F>>) -> (r: Result<
        GreedyStep<F>,
        Error,
    >)
        requires
            old(self).inv(),
            old(self).rounds_spec() < u64::MAX,
            claims_ok(old(self).prover_spec().oracles_spec(), claims_view(new_evalcheck_claims@)),
        ensures
            final(self).rounds_spec() == old(self).rounds_spec() + 1,
            match r {
                Ok(step) => final(self).inv() && Self::stepped(
                    old(self).prover_spec(),
                    final(self).prover_spec(),
                    claims_view(new_evalcheck_claims@),
                    final(self).rounds_spec(),
                    Seq::empty(),
                    step,
                ),
                Err(e) => old(self).prover_spec().prove_post(
                    &final(self).prover_spec(),
                    claims_view(new_evalcheck_claims@),
                    Err(e),
                ),
            },
    {
        self.rounds = self.rounds + 1;
        self.step(new_evalcheck_claims, Vec::new())
    }

    /// Whether the prover accepts the claims: each of them names an oracle
    /// of the set at a point of its arity.
    pub fn accepts(&self, claims: &Vec<EvalcheckMultilinearClaim<F>>) -> (ok: bool)
        ensures
            ok == claims_ok(self.prover_spec().oracles_spec(), claims_view(claims@)),
    {
        self.prover.accepts(claims)
    }

    /// The number of sumcheck rounds so far.
    pub fn rounds(&self) -> (n: u64)
        ensures
            n == self.rounds_spec(),
    {
        self.rounds
    }

    /// The evalcheck prover that does the reductions.
    pub fn prover(&self) -> (prover: &EvalcheckProver<F>)
        ensures
            *prover == self.prover_spec(),
    {
        &self.prover
    }

    /// Gives the oracle set and the witness store back.
    pub fn into_parts(self) -> (parts: (MultilinearOracleSet<F>, MultilinearExtensionIndex<F>))
        requires
            self.inv(),
        ensures
            parts.0.wf(),
            witness_fits(parts.0.oracles@, parts.1.columns@),
            parts.0.oracles@ == self.prover_spec().oracles_spec(),
            parts.1.columns@ == self.prover_spec().columns_spec(),
    {
        self.prover.into_parts()
    }
}

/// Whether every sumcheck instance of every constraint set multiplies
/// oracles of depth at most `d`.
pub open spec fn sets_within<F>(
    oracles: Seq<MultilinearPolyOracle<F>>,
    sets: Seq<(usize, Seq<BivariateSumcheck<F>>)>,
    d: int,
) -> bool {
    forall|s: int, j: int|
        0 <= s < sets.len() && 0 <= j < sets[s].1.len() ==> constraint_within(
            oracles,
            #[trigger] sets[s].1[j],
            d,
        )
}

/// Whether every claim is on one of the two oracles of one of the
/// sumcheck instances: what a round of the sumcheck protocol hands back.
pub open spec fn claims_answer<F>(
    sets: Seq<(usize, Seq<BivariateSumcheck<F>>)>,
    claims: Seq<ClaimSpec<F>>,
) -> bool {
    forall|i: int|
        0 <= i < claims.len() ==> exists|s: int, j: int|
            0 <= s < sets.len() && 0 <= j < sets[s].1.len() && ((#[trigger] claims[i]).id == (
            #[trigger] sets[s].1[j]).projected_id || claims[i].id == sets[s].1[j].multiplier_id)
}

/// One step of the greedy evalcheck as the driver sees it.
pub struct GreedyRound<F> {
    /// The evalcheck prover at the start of the step.
    pub before: EvalcheckProver<F>,
    /// The evalcheck prover at its end.
    pub after: EvalcheckProver<F>,
    /// The claims that were handed in.
    pub claims: Seq<ClaimSpec<F>>,
    /// The number of sumcheck rounds at the end of the step.
    pub rounds: u64,
    /// The advice that the step began with.
    pub advice_head: Seq<u8>,
    /// What the step returned.
    pub step: GreedyStep<F>,
}

/// Whether `round` is a successful step of the greedy evalcheck.
pub open spec fn round_ok<F: Field>(round: GreedyRound<F>) -> bool {
    &&& round.before.inv()
    &&& round.before.builders_spec() == empty_builders::<F>(round.before.builders_spec().len())
    &&& claims_ok(round.before.oracles_spec(), round.claims)
    &&& GreedyEvalcheckProver::stepped(
        round.before,
        round.after,
        round.claims,
        round.rounds,
        round.advice_head,
        round.step,
    )
}

/// Whether the steps follow one another as the driver runs them: each
/// step but the last asks for sumchecks, and the next step starts where
/// it ended, with claims on the oracles of the sumcheck instances that it
/// asked for.
pub open spec fn chained<F: Field>(trace: Seq<GreedyRound<F>>) -> bool {
    &&& forall|r: int| 0 <= r < trace.len() ==> round_ok(#[trigger] trace[r])
    &&& forall|r: int|
        0 <= r < trace.len() - 1 ==> {
            &&& (#[trigger] trace[r]).step.action is ProveSumchecks
            &&& trace[r + 1].before == trace[r].after
            &&& claims_answer(
                sets_view(trace[r].step.action->constraints@),
                trace[r + 1].claims,
            )
        }
}

/// A step on claims of depth at most `d` that asks for sumchecks asks for
/// instances over oracles of depth less than `d`; so a step on claims of
/// depth zero asks for none.
pub proof fn lemma_step_lowers_depth<F: Field>(round: GreedyRound<F>, d: nat)
    requires
        round_ok(round),
        claims_within(round.before.oracles_spec(), round.claims, d),
        round.step.action is ProveSumchecks,
    ensures
        d >= 1,
        sets_within(
            round.after.oracles_spec(),
            sets_view(round.step.action->constraints@),
            d - 1,
        ),
{
    let before = round.before;
    let claims = round.claims;
    let oracles = before.oracles_spec();
    let columns = before.columns_spec();
    let (mid, proofs) = choose|mid: EvalcheckProver<F>, proofs: Vec<EvalcheckProof<F>>|
        {
            let sets = sets_above(mid.builders_spec(), 0);
            &&& #[trigger] before.prove_post(&mid, claims, Ok(proofs))
            &&& round.step.transcript@ == proofs_bytes(proofs_view(proofs@), proofs@.len())
            &&& round.after.state() == mid.state()
            &&& round.after.oracles_spec() == mid.oracles_spec()
            &&& round.after.columns_spec() == mid.columns_spec()
            &&& round.after.builders_spec() == empty_builders::<F>(mid.builders_spec().len())
            &&& match round.step.action {
                GreedyAction::ProveSumchecks { constraints } => {
                    &&& sets.len() > 0
                    &&& sets_view(constraints@) == sets
                    &&& round.after.committed_spec() == mid.committed_spec()
                    &&& round.step.advice@ == round.advice_head
                },
                GreedyAction::Finish { committed_claims } => {
                    &&& sets.len() == 0
                    &&& claims_view(committed_claims@) == mid.committed_spec()
                    &&& round.after.committed_spec() == Seq::<ClaimSpec<F>>::empty()
                    &&& round.step.advice@ == round.advice_head + spec_u64_to_le_bytes(
                        round.rounds,
                    )
                },
            }
        };
    let rest = choose|rest: ProverState<F>| #[trigger]
        reached(oracles, columns, before.state(), claims, rest) && before.proved(
            &mid,
            claims,
            rest,
            proofs_view(proofs@),
        );
    let found = leaf_claims(oracles, rest, claims).bivariate;
    let grown = mid.oracles_spec();
    let sets = sets_above(mid.builders_spec(), 0);
    before.lemma_inv_unfolds();
    mid.lemma_inv_unfolds();
    lemma_collect_all_depth(
        oracles,
        complete_all(oracles, rest).finalized,
        claims,
        claims.len(),
        d,
    );
    let empty = before.builders_spec();
    if found.len() == 0 {
        lemma_sets_above_of_empty(empty, 0);
        assert(mid.builders_spec() == empty);
        assert(false);
    }
    assert(is_bivariate(oracles[found[0].id as int].variant));
    assert(d >= 1);
    assert(builders_within(grown, empty, d - 1));
    lemma_builders_after_within(oracles, grown, empty, found, found.len(), found.len(), d);
    assert forall|s: int, j: int| 0 <= s < sets.len() && 0 <= j < sets[s].1.len() implies constraint_within(
        grown,
        #[trigger] sets[s].1[j],
        d - 1,
    ) by {
        lemma_sets_above_members(mid.builders_spec(), 0, s);
    }
}

/// After `r` steps the claims are on oracles of depth at most `d - r`,
/// where the initial claims are on oracles of depth at most `d`.
pub proof fn lemma_round_depth<F: Field>(trace: Seq<GreedyRound<F>>, d: nat, r: nat)
    requires
        chained(trace),
        r < trace.len(),
        claims_within(trace[0].before.oracles_spec(), trace[0].claims, d),
    ensures
        r <= d,
        claims_within(trace[r as int].before.oracles_spec(), trace[r as int].claims, (d - r) as nat),
    decreases r,
{
    if r > 0 {
        lemma_round_depth(trace, d, (r - 1) as nat);
        let prev = trace[r - 1];
        let next = trace[r as int];
        assert(round_ok(prev));
        lemma_step_lowers_depth(prev, (d - (r - 1)) as nat);
        let sets = sets_view(prev.step.action->constraints@);
        let oracles = next.before.oracles_spec();
        assert(claims_answer(sets, next.claims));
        assert forall|i: int| 0 <= i < next.claims.len() implies depth(
            oracles,
            (#[trigger] next.claims[i]).id as int,
        ) <= d - r by {
            let (s, j) = choose|s: int, j: int|
                0 <= s < sets.len() && 0 <= j < sets[s].1.len() && ((
                #[trigger] next.claims[i]).id == (#[trigger] sets[s].1[j]).projected_id
                    || next.claims[i].id == sets[s].1[j].multiplier_id);
            assert(constraint_within(oracles, sets[s].1[j], d - r));
        }
    }
}

/// Termination: the greedy evalcheck takes no more rounds of the sumcheck
/// protocol than the oracles of the initial claims are deep. Each round
/// answers sumcheck instances over oracles that are less deep than the
/// claims before it, and claims on oracles of depth zero leave no
/// instance.
pub proof fn lemma_rounds_bounded<F: Field>(trace: Seq<GreedyRound<F>>, d: nat)
    requires
        chained(trace),
        trace.len() > 0,
        claims_within(trace[0].before.oracles_spec(), trace[0].claims, d),
    ensures
        trace.len() <= d + 1,
{
    lemma_round_depth(trace, d, (trace.len() - 1) as nat);
}

/// The greedy evalcheck proves the claims of no more steps than one more
/// than the depth of the deepest oracle among the initial claims: it takes
/// no more rounds of the sumcheck protocol than that depth.
pub proof fn lemma_rounds_bounded_by_depth<F: Field>(trace: Seq<GreedyRound<F>>)
    requires
        chained(trace),
        trace.len() > 0,
    ensures
        trace.len() <= max_depth(trace[0].before.oracles_spec(), trace[0].claims)
            + 1,
{
    let oracles = trace[0].before.oracles_spec();
    let claims = trace[0].claims;
    let d = max_depth(oracles, claims);
    assert forall|i: int| 0 <= i < claims.len() implies depth(
        oracles,
        (#[trigger] claims[i]).id as int,
    ) <= d by {
        lemma_max_depth_bounds(oracles, claims, claims.len(), i);
    }
    lemma_rounds_bounded(trace, d);
}

} // verus!
