use vstd::prelude::*;
use crate::field::Field;

verus! {

/// Identifies an oracle: its position in the oracle set.
pub type OracleId = usize;

/// The largest number of variables an oracle may have. An evaluation table
/// over that many variables still fits in memory on every supported target.
pub const MAX_N_VARS: usize = 30;

/// Which end of the variables a projection fixes.
#[derive(Clone, Copy, Debug, PartialEq, Eq, Structural)]
pub enum ProjectionVariant {
    FirstVars,
    LastVars,
}

/// How a shifted polynomial treats positions that move across a block edge.
#[derive(Clone, Copy, Debug, PartialEq, Eq, Structural)]
pub enum ShiftVariant {
    CircularLeft,
    LogicalLeft,
    LogicalRight,
}

/// The public formula behind a transparent oracle.
pub enum TransparentPoly<F> {
    /// A formula that only the caller knows.
    Public,
    /// The shift indicator of a block, partially evaluated at `r`.
    ShiftIndPartialEval { block_size: usize, shift_offset: usize, shift_variant: ShiftVariant, r: Vec<F> },
    /// The basis of a tower extension of degree `2^log_degree`.
    TowerBasis { log_degree: usize },
    /// One on the vertices before position `index`, zero from there on.
    StepDown { index: usize },
}

/// The kind of an oracle, with the oracles it is built from.
pub enum OracleVariant<F> {
    /// A leaf that a commitment scheme opens.
    Committed,
    /// A leaf whose values follow from a public formula.
    Transparent { poly: TransparentPoly<F> },
    /// The inner polynomial repeated to fill `log_count` more high variables.
    Repeating { inner: OracleId, log_count: usize },
    /// The inner polynomial read at an offset within blocks of `2^block_size`.
    Shifted { inner: OracleId, shift_offset: usize, block_size: usize, shift_variant: ShiftVariant },
    /// The inner polynomial with `2^log_degree` values packed into one.
    Packed { inner: OracleId, log_degree: usize },
    /// The inner polynomial with some variables fixed to `values`.
    Projected { inner: OracleId, values: Vec<F>, variant: ProjectionVariant },
    /// `offset` plus the sum of the inner polynomials times their coefficients.
    LinearCombination { offset: F, terms: Vec<(OracleId, F)> },
    /// The inner polynomial extended by zeros to more variables.
    ZeroPadded { inner: OracleId },
}

/// A multilinear polynomial oracle: its arity and how it is defined.
pub struct MultilinearPolyOracle<F> {
    pub n_vars: usize,
    pub variant: OracleVariant<F>,
}

/// Why an oracle could not be added to a set.
#[derive(Clone, Copy, Debug, PartialEq, Eq, Structural)]
pub enum OracleError {
    /// The oracle refers to an id that the set does not hold.
    InvalidOracleId,
    /// The oracle would have more than `MAX_N_VARS` variables.
    TooManyVariables,
    /// The inner oracle has fewer variables than the construction takes away.
    NotEnoughVariables,
    /// The polynomials of a linear combination differ in arity.
    IncorrectNumberOfVariables,
    /// An argument lies outside the range that the construction allows.
    ArgumentRangeError,
}

/// The oracles of a proof, each built only from oracles before it.
pub struct MultilinearOracleSet<F> {
    pub oracles: Vec<MultilinearPolyOracle<F>>,
}

/// Whether every term of a linear combination names an oracle before
/// position `id` that has `n_vars` variables.
pub open spec fn terms_fit<F>(
    oracles: Seq<MultilinearPolyOracle<F>>,
    terms: Seq<(OracleId, F)>,
    id: int,
    n_vars: int,
) -> bool {
    forall|j: int|
        0 <= j < terms.len() ==> (#[trigger] terms[j]).0 < id && oracles[terms[j].0 as int].n_vars
            == n_vars
}

/// Whether the oracle at position `id` is consistent with the oracles
/// before it: its children precede it and its arity follows from theirs.
pub open spec fn oracle_fits<F>(oracles: Seq<MultilinearPolyOracle<F>>, id: int) -> bool {
    let o = oracles[id];
    &&& o.n_vars <= MAX_N_VARS
    &&& match o.variant {
        OracleVariant::Committed => true,
        OracleVariant::Transparent { poly } => true,
        OracleVariant::Repeating { inner, log_count } => inner < id && o.n_vars
            == oracles[inner as int].n_vars + log_count,
        OracleVariant::Shifted { inner, shift_offset, block_size, shift_variant } => inner < id
            && o.n_vars == oracles[inner as int].n_vars && block_size <= o.n_vars,
        OracleVariant::Packed { inner, log_degree } => inner < id && oracles[inner as int].n_vars
            == o.n_vars + log_degree,
        OracleVariant::Projected { inner, values, variant } => inner < id
            && oracles[inner as int].n_vars == o.n_vars + values@.len(),
        OracleVariant::LinearCombination { offset, terms } => terms_fit(
            oracles,
            terms@,
            id,
            o.n_vars as int,
        ),
        OracleVariant::ZeroPadded { inner } => inner < id && oracles[inner as int].n_vars
            <= o.n_vars,
    }
}

/// Whether a sequence of oracles is a well-formed set: an acyclic graph with
/// consistent arities.
pub open spec fn oracles_wf<F>(oracles: Seq<MultilinearPolyOracle<F>>) -> bool {
    forall|id: int| 0 <= id < oracles.len() ==> #[trigger] oracle_fits(oracles, id)
}

/// Whether every oracle that `oracle` is built from is one of `oracles`.
pub open spec fn children_known<F>(
    oracles: Seq<MultilinearPolyOracle<F>>,
    oracle: MultilinearPolyOracle<F>,
) -> bool {
    match oracle.variant {
        OracleVariant::Repeating { inner, .. } => inner < oracles.len(),
        OracleVariant::Shifted { inner, .. } => inner < oracles.len(),
        OracleVariant::Packed { inner, .. } => inner < oracles.len(),
        OracleVariant::Projected { inner, .. } => inner < oracles.len(),
        OracleVariant::ZeroPadded { inner } => inner < oracles.len(),
        OracleVariant::LinearCombination { offset, terms } => forall|i: int|
            0 <= i < terms@.len() ==> (#[trigger] terms@[i]).0 < oracles.len(),
        _ => true,
    }
}

/// The reason for which an oracle that does not fit is refused: too many
/// variables, else an unknown child, else an arity that does not follow
/// from the children's.
pub open spec fn fit_error<F>(
    oracles: Seq<MultilinearPolyOracle<F>>,
    oracle: MultilinearPolyOracle<F>,
) -> OracleError {
    if oracle.n_vars > MAX_N_VARS {
        OracleError::TooManyVariables
    } else if !children_known(oracles, oracle) {
        OracleError::InvalidOracleId
    } else if oracle.variant is LinearCombination {
        OracleError::IncorrectNumberOfVariables
    } else {
        OracleError::NotEnoughVariables
    }
}

/// What adding `oracle` to `before` returns and leaves behind: where the
/// oracle fits, its id, which is its position at the end of the set; else
/// the reason for which it is refused, and the set as it was.
pub open spec fn add_outcome<F>(
    before: Seq<MultilinearPolyOracle<F>>,
    after: Seq<MultilinearPolyOracle<F>>,
    oracle: MultilinearPolyOracle<F>,
    r: Result<OracleId, OracleError>,
) -> bool {
    if oracle_fits(before.push(oracle), before.len() as int) {
        r == Ok::<OracleId, OracleError>(before.len() as usize) && after == before.push(oracle)
    } else {
        r == Err::<OracleId, OracleError>(fit_error(before, oracle)) && after == before
    }
}

/// The arity of an oracle that has `more` variables more than `inner`.
/// Where there is no such arity within the limit, one beyond it.
pub open spec fn grown_arity<F>(
    oracles: Seq<MultilinearPolyOracle<F>>,
    inner: OracleId,
    more: usize,
) -> usize {
    if inner < oracles.len() && more <= MAX_N_VARS {
        (oracles[inner as int].n_vars + more) as usize
    } else if inner < oracles.len() {
        (MAX_N_VARS + 1) as usize
    } else if more <= MAX_N_VARS {
        (MAX_N_VARS + 1 + more) as usize
    } else {
        (MAX_N_VARS + 1) as usize
    }
}

/// The arity of an oracle that has `fewer` variables fewer than `inner`,
/// or zero where `inner` has not that many.
pub open spec fn shrunk_arity<F>(
    oracles: Seq<MultilinearPolyOracle<F>>,
    inner: OracleId,
    fewer: usize,
) -> usize {
    let base = if inner < oracles.len() {
        oracles[inner as int].n_vars
    } else {
        (MAX_N_VARS + 1) as usize
    };
    if fewer <= base {
        (base - fewer) as usize
    } else {
        0
    }
}

/// Adding an oracle that fits keeps a set well formed.
pub proof fn lemma_push_keeps_wf<F>(
    oracles: Seq<MultilinearPolyOracle<F>>,
    o: MultilinearPolyOracle<F>,
)
    requires
        oracles_wf(oracles),
        oracle_fits(oracles.push(o), oracles.len() as int),
    ensures
        oracles_wf(oracles.push(o)),
{
    let next = oracles.push(o);
    assert forall|id: int| 0 <= id < next.len() implies #[trigger] oracle_fits(next, id) by {
        if id < oracles.len() {
            assert(oracle_fits(oracles, id));
            assert(next[id] == oracles[id]);
            match oracles[id].variant {
                OracleVariant::LinearCombination { offset, terms } => {
                    assert forall|j: int| 0 <= j < terms@.len() implies (#[trigger] terms@[j]).0
                        < id && next[terms@[j].0 as int].n_vars == next[id].n_vars by {
                        assert(terms@[j].0 < id);
                    }
                },
                _ => {},
            }
        }
    }
}

impl<F: Field> MultilinearOracleSet<F> {
    /// Whether the set is well formed.
    pub open spec fn wf(&self) -> bool {
        oracles_wf(self.oracles@)
    }

    /// An empty oracle set.
    pub fn new() -> (set: Self)
        ensures
            set.wf(),
            set.oracles@.len() == 0,
    {
        MultilinearOracleSet { oracles: Vec::new() }
    }

    /// The number of oracles in the set.
    pub fn size(&self) -> (n: usize)
        ensures
            n == self.oracles@.len(),
    {
        self.oracles.len()
    }

    /// Whether `id` names an oracle of the set.
    pub fn is_valid_oracle_id(&self, id: OracleId) -> (b: bool)
        ensures
            b == (id < self.oracles@.len()),
    {
        id < self.oracles.len()
    }

    /// The oracle with the given id.
    pub fn oracle(&self, id: OracleId) -> (o: &MultilinearPolyOracle<F>)
        requires
            id < self.oracles@.len(),
        ensures
            *o == self.oracles@[id as int],
    {
        &self.oracles[id]
    }

    /// The number of variables of the oracle with the given id.
    pub fn n_vars(&self, id: OracleId) -> (n: usize)
        requires
            id < self.oracles@.len(),
        ensures
            n == self.oracles@[id as int].n_vars,
    {
        self.oracles[id].n_vars
    }

    /// Appends an oracle that fits the set and returns its id.
    fn push(&mut self, o: MultilinearPolyOracle<F>) -> (id: OracleId)
        requires
            old(self).wf(),
            oracle_fits(old(self).oracles@.push(o), old(self).oracles@.len() as int),
        ensures
            final(self).wf(),
            id == old(self).oracles@.len(),
            final(self).oracles@ == old(self).oracles@.push(o),
    {
        proof {
            lemma_push_keeps_wf(self.oracles@, o);
        }
        let id = self.oracles.len();
        self.oracles.push(o);
        id
    }

    /// Whether every term names an oracle of the set with `n_vars`
    /// variables.
    fn check_terms(&self, terms: &Vec<(OracleId, F)>, n_vars: usize) -> (ok: bool)
        ensures
            ok == terms_fit(self.oracles@, terms@, self.oracles@.len() as int, n_vars as int),
    {
        let mut j: usize = 0;
        while j < terms.len()
            invariant
                j <= terms@.len(),
                forall|i: int|
                    0 <= i < j ==> (#[trigger] terms@[i]).0 < self.oracles@.len()
                        && self.oracles@[terms@[i].0 as int].n_vars == n_vars,
            decreases terms@.len() - j,
        {
            if terms[j].0 >= self.oracles.len() || self.oracles[terms[j].0].n_vars != n_vars {
                assert(!(terms@[j as int].0 < self.oracles@.len()
                    && self.oracles@[terms@[j as int].0 as int].n_vars == n_vars));
                return false;
            }
            j += 1;
        }
        true
    }

    /// Whether the oracle at position `id` is consistent with the oracles
    /// before it.
    #[verifier::loop_isolation(false)]
    fn fits_at(&self, id: OracleId) -> (ok: bool)
        requires
            id < self.oracles@.len(),
        ensures
            ok == oracle_fits(self.oracles@, id as int),
    {
        let oracle = &self.oracles[id];
        if oracle.n_vars > MAX_N_VARS {
            return false;
        }
        match &oracle.variant {
            OracleVariant::Committed => true,
            OracleVariant::Transparent { .. } => true,
            OracleVariant::Repeating { inner, log_count } => {
                *inner < id && *log_count <= oracle.n_vars && self.oracles[*inner].n_vars
                    == oracle.n_vars - *log_count
            },
            OracleVariant::Shifted { inner, block_size, .. } => {
                *inner < id && self.oracles[*inner].n_vars == oracle.n_vars && *block_size
                    <= oracle.n_vars
            },
            OracleVariant::Packed { inner, log_degree } => {
                *inner < id && *log_degree <= self.oracles[*inner].n_vars
                    && self.oracles[*inner].n_vars - *log_degree == oracle.n_vars
            },
            OracleVariant::Projected { inner, values, .. } => {
                *inner < id && values.len() <= self.oracles[*inner].n_vars
                    && self.oracles[*inner].n_vars - values.len() == oracle.n_vars
            },
            OracleVariant::LinearCombination { terms, .. } => {
                let mut j: usize = 0;
                while j < terms.len()
                    invariant
                        j <= terms@.len(),
                        id < self.oracles@.len(),
                        forall|i: int|
                            0 <= i < j ==> (#[trigger] terms@[i]).0 < id
                                && self.oracles@[terms@[i].0 as int].n_vars == oracle.n_vars,
                    decreases terms@.len() - j,
                {
                    if terms[j].0 >= id || self.oracles[terms[j].0].n_vars != oracle.n_vars {
                        assert(!(terms@[j as int].0 < id
                            && self.oracles@[terms@[j as int].0 as int].n_vars == oracle.n_vars));
                        return false;
                    }
                    j += 1;
                }
                true
            },
            OracleVariant::ZeroPadded { inner } => {
                *inner < id && self.oracles[*inner].n_vars <= oracle.n_vars
            },
        }
    }

    /// Whether the set is well formed. A set that is built with `new` and
    /// the `add` methods always is.
    pub fn is_wf(&self) -> (ok: bool)
        ensures
            ok == self.wf(),
    {
        let mut id: usize = 0;
        while id < self.oracles.len()
            invariant
                id <= self.oracles@.len(),
                forall|k: int| 0 <= k < id ==> #[trigger] oracle_fits(self.oracles@, k),
            decreases self.oracles@.len() - id,
        {
            if !self.fits_at(id) {
                return false;
            }
            id += 1;
        }
        true
    }

    /// Whether `oracle` fits the set as its next oracle.
    fn check_fits(&self, oracle: &MultilinearPolyOracle<F>) -> (ok: bool)
        ensures
            ok == oracle_fits(self.oracles@.push(*oracle), self.oracles@.len() as int),
    {
        let ghost next = self.oracles@.push(*oracle);
        let len = self.oracles.len();
        assert(next[len as int] == *oracle);
        assert(forall|i: int| 0 <= i < len ==> next[i] == self.oracles@[i]);
        if oracle.n_vars > MAX_N_VARS {
            return false;
        }
        match &oracle.variant {
            OracleVariant::Committed => true,
            OracleVariant::Transparent { .. } => true,
            OracleVariant::Repeating { inner, log_count } => {
                *inner < len && *log_count <= oracle.n_vars && self.oracles[*inner].n_vars
                    == oracle.n_vars - *log_count
            },
            OracleVariant::Shifted { inner, block_size, .. } => {
                *inner < len && self.oracles[*inner].n_vars == oracle.n_vars && *block_size
                    <= oracle.n_vars
            },
            OracleVariant::Packed { inner, log_degree } => {
                *inner < len && *log_degree <= self.oracles[*inner].n_vars
                    && self.oracles[*inner].n_vars - *log_degree == oracle.n_vars
            },
            OracleVariant::Projected { inner, values, .. } => {
                *inner < len && values.len() <= self.oracles[*inner].n_vars
                    && self.oracles[*inner].n_vars - values.len() == oracle.n_vars
            },
            OracleVariant::LinearCombination { terms, .. } => {
                let ok = self.check_terms(terms, oracle.n_vars);
                proof {
                    if ok {
                        assert forall|j: int| 0 <= j < terms@.len() implies (#[trigger] terms@[j]).0
                            < len && next[terms@[j].0 as int].n_vars == oracle.n_vars by {
                            assert(terms@[j].0 < self.oracles@.len());
                        }
                    } else {
                        if terms_fit(next, terms@, len as int, oracle.n_vars as int) {
                            assert forall|j: int| 0 <= j < terms@.len() implies (
                            #[trigger] terms@[j]).0 < len && self.oracles@[terms@[j].0 as int].n_vars
                                == oracle.n_vars by {
                                assert(terms@[j].0 < len);
                            }
                        }
                    }
                }
                ok
            },
            OracleVariant::ZeroPadded { inner } => {
                *inner < len && self.oracles[*inner].n_vars <= oracle.n_vars
            },
        }
    }

    /// Adds `oracle` to the set where it fits, and returns its id. An
    /// oracle that does not fit leaves the set as it is.
    pub fn add(&mut self, oracle: MultilinearPolyOracle<F>) -> (r: Result<OracleId, OracleError>)
        requires
            old(self).wf(),
        ensures
            final(self).wf(),
            add_outcome(old(self).oracles@, final(self).oracles@, oracle, r),
    {
        if self.check_fits(&oracle) {
            Ok(self.push(oracle))
        } else {
            Err(self.explain(&oracle))
        }
    }

    /// Says why an oracle does not fit.
    fn explain(&self, oracle: &MultilinearPolyOracle<F>) -> (e: OracleError)
        ensures
            e == fit_error(self.oracles@, *oracle),
    {
        let len = self.oracles.len();
        if oracle.n_vars > MAX_N_VARS {
            return OracleError::TooManyVariables;
        }
        let known = match &oracle.variant {
            OracleVariant::Repeating { inner, .. } => *inner < len,
            OracleVariant::Shifted { inner, .. } => *inner < len,
            OracleVariant::Packed { inner, .. } => *inner < len,
            OracleVariant::Projected { inner, .. } => *inner < len,
            OracleVariant::ZeroPadded { inner } => *inner < len,
            OracleVariant::LinearCombination { terms, .. } => {
                let mut j: usize = 0;
                let mut all: bool = true;
                while j < terms.len()
                    invariant
                        j <= terms@.len(),
                        all == forall|i: int| 0 <= i < j ==> (#[trigger] terms@[i]).0 < len,
                    decreases terms@.len() - j,
                {
                    if terms[j].0 >= len {
                        all = false;
                    }
                    j += 1;
                }
                all
            },
            _ => true,
        };
        if !known {
            OracleError::InvalidOracleId
        } else {
            match &oracle.variant {
                OracleVariant::LinearCombination { .. } => OracleError::IncorrectNumberOfVariables,
                _ => OracleError::NotEnoughVariables,
            }
        }
    }

    /// Adds a committed leaf of `n_vars` variables.
    pub fn add_committed(&mut self, n_vars: usize) -> (r: Result<OracleId, OracleError>)
        requires
            old(self).wf(),
        ensures
            final(self).wf(),
            add_outcome(
                old(self).oracles@,
                final(self).oracles@,
                MultilinearPolyOracle { n_vars, variant: OracleVariant::Committed },
                r,
            ),
    {
        self.add(MultilinearPolyOracle { n_vars, variant: OracleVariant::Committed })
    }

    /// Adds a transparent leaf of `n_vars` variables.
    pub fn add_transparent(&mut self, n_vars: usize, poly: TransparentPoly<F>) -> (r: Result<
        OracleId,
        OracleError,
    >)
        requires
            old(self).wf(),
        ensures
            final(self).wf(),
            add_outcome(
                old(self).oracles@,
                final(self).oracles@,
                MultilinearPolyOracle { n_vars, variant: OracleVariant::Transparent { poly } },
                r,
            ),
    {
        self.add(MultilinearPolyOracle { n_vars, variant: OracleVariant::Transparent { poly } })
    }

    /// The number of variables of `inner`, or `MAX_N_VARS + 1` where the
    /// set holds no such oracle.
    fn arity_or_beyond(&self, inner: OracleId) -> (n: usize)
        requires
            self.wf(),
        ensures
            inner < self.oracles@.len() ==> n == self.oracles@[inner as int].n_vars && n
                <= MAX_N_VARS,
            inner >= self.oracles@.len() ==> n == MAX_N_VARS + 1,
    {
        if inner < self.oracles.len() {
            assert(oracle_fits(self.oracles@, inner as int));
            self.oracles[inner].n_vars
        } else {
            MAX_N_VARS + 1
        }
    }

    /// Adds the oracle that repeats `inner` to fill `log_count` more
    /// variables.
    pub fn add_repeating(&mut self, inner: OracleId, log_count: usize) -> (r: Result<
        OracleId,
        OracleError,
    >)
        requires
            old(self).wf(),
        ensures
            final(self).wf(),
            add_outcome(
                old(self).oracles@,
                final(self).oracles@,
                MultilinearPolyOracle {
                    n_vars: grown_arity(old(self).oracles@, inner, log_count),
                    variant: OracleVariant::Repeating { inner, log_count },
                },
                r,
            ),
    {
        let base = self.arity_or_beyond(inner);
        let n_vars = if log_count <= MAX_N_VARS {
            base + log_count
        } else {
            MAX_N_VARS + 1
        };
        self.add(MultilinearPolyOracle { n_vars, variant: OracleVariant::Repeating { inner, log_count } })
    }

    /// Adds the oracle that reads `inner` at an offset within blocks of
    /// `2^block_size` values.
    pub fn add_shifted(
        &mut self,
        inner: OracleId,
        shift_offset: usize,
        block_size: usize,
        shift_variant: ShiftVariant,
    ) -> (r: Result<OracleId, OracleError>)
        requires
            old(self).wf(),
        ensures
            final(self).wf(),
            add_outcome(
                old(self).oracles@,
                final(self).oracles@,
                MultilinearPolyOracle {
                    n_vars: grown_arity(old(self).oracles@, inner, 0),
                    variant: OracleVariant::Shifted {
                        inner,
                        shift_offset,
                        block_size,
                        shift_variant,
                    },
                },
                r,
            ),
    {
        let n_vars = self.arity_or_beyond(inner);
        self.add(
            MultilinearPolyOracle {
                n_vars,
                variant: OracleVariant::Shifted { inner, shift_offset, block_size, shift_variant },
            },
        )
    }

    /// Adds the oracle that packs `2^log_degree` values of `inner` into
    /// one.
    pub fn add_packed(&mut self, inner: OracleId, log_degree: usize) -> (r: Result<
        OracleId,
        OracleError,
    >)
        requires
            old(self).wf(),
        ensures
            final(self).wf(),
            add_outcome(
                old(self).oracles@,
                final(self).oracles@,
                MultilinearPolyOracle {
                    n_vars: shrunk_arity(old(self).oracles@, inner, log_degree),
                    variant: OracleVariant::Packed { inner, log_degree },
                },
                r,
            ),
    {
        let base = self.arity_or_beyond(inner);
        let n_vars = if log_degree <= base {
            base - log_degree
        } else {
            0
        };
        self.add(MultilinearPolyOracle { n_vars, variant: OracleVariant::Packed { inner, log_degree } })
    }

    /// Adds the oracle that fixes the first or the last variables of
    /// `inner` to `values`.
    pub fn add_projected(
        &mut self,
        inner: OracleId,
        values: Vec<F>,
        variant: ProjectionVariant,
    ) -> (r: Result<OracleId, OracleError>)
        requires
            old(self).wf(),
        ensures
            final(self).wf(),
            add_outcome(
                old(self).oracles@,
                final(self).oracles@,
                MultilinearPolyOracle {
                    n_vars: shrunk_arity(old(self).oracles@, inner, values@.len() as usize),
                    variant: OracleVariant::Projected { inner, values, variant },
                },
                r,
            ),
    {
        let base = self.arity_or_beyond(inner);
        let n_vars = if values.len() <= base {
            base - values.len()
        } else {
            0
        };
        self.add(
            MultilinearPolyOracle { n_vars, variant: OracleVariant::Projected { inner, values, variant } },
        )
    }

    /// Adds the oracle `offset + sum of coefficient * polynomial` over
    /// polynomials of `n_vars` variables.
    pub fn add_linear_combination_with_offset(
        &mut self,
        n_vars: usize,
        offset: F,
        terms: Vec<(OracleId, F)>,
    ) -> (r: Result<OracleId, OracleError>)
        requires
            old(self).wf(),
        ensures
            final(self).wf(),
            add_outcome(
                old(self).oracles@,
                final(self).oracles@,
                MultilinearPolyOracle {
                    n_vars,
                    variant: OracleVariant::LinearCombination { offset, terms },
                },
                r,
            ),
    {
        self.add(
            MultilinearPolyOracle { n_vars, variant: OracleVariant::LinearCombination { offset, terms } },
        )
    }

    /// Adds the oracle `sum of coefficient * polynomial` over polynomials
    /// of `n_vars` variables.
    pub fn add_linear_combination(&mut self, n_vars: usize, terms: Vec<(OracleId, F)>) -> (r: Result<
        OracleId,
        OracleError,
    >)
        requires
            old(self).wf(),
        ensures
            final(self).wf(),
            add_outcome(
                old(self).oracles@,
                final(self).oracles@,
                MultilinearPolyOracle {
                    n_vars,
                    variant: OracleVariant::LinearCombination { offset: F::zero(), terms },
                },
                r,
            ),
    {
        self.add_linear_combination_with_offset(n_vars, F::zero_value(), terms)
    }

    /// Adds the oracle that extends `inner` by zeros to `n_vars`
    /// variables.
    pub fn add_zero_padded(&mut self, inner: OracleId, n_vars: usize) -> (r: Result<
        OracleId,
        OracleError,
    >)
        requires
            old(self).wf(),
        ensures
            final(self).wf(),
            add_outcome(
                old(self).oracles@,
                final(self).oracles@,
                MultilinearPolyOracle { n_vars, variant: OracleVariant::ZeroPadded { inner } },
                r,
            ),
    {
        self.add(MultilinearPolyOracle { n_vars, variant: OracleVariant::ZeroPadded { inner } })
    }
}

} // verus!
