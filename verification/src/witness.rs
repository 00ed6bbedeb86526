use vstd::prelude::*;
use vstd::arithmetic::power2::{lemma2_to64, lemma_pow2_strictly_increases, lemma_pow2_unfold, pow2};
use rayon::iter::{IntoParallelRefIterator, ParallelIterator};
use crate::error::WitnessError;
use crate::evalcheck::{clone_point, points_equal};
use crate::field::Field;
use crate::multilinear::{tensor_expand, tensor_expansion};
use crate::oracle::{oracle_fits, MultilinearOracleSet, MultilinearPolyOracle, OracleId, MAX_N_VARS};

verus! {

/// The witness store: for each oracle that has one, the column of its
/// evaluations on the hypercube.
pub struct MultilinearExtensionIndex<F> {
    pub columns: Vec<Option<Vec<F>>>,
}

/// The column that the store holds for `id`, if any.
pub open spec fn column_of<F>(columns: Seq<Option<Vec<F>>>, id: OracleId) -> Option<Seq<F>> {
    if id < columns.len() {
        match columns[id as int] {
            Some(col) => Some(col@),
            None => None,
        }
    } else {
        None
    }
}

/// Whether every column belongs to an oracle of the set and has one value
/// for each vertex of that oracle's hypercube.
pub open spec fn witness_fits<F>(
    oracles: Seq<MultilinearPolyOracle<F>>,
    columns: Seq<Option<Vec<F>>>,
) -> bool {
    forall|id: OracleId|
        (#[trigger] column_of(columns, id)) is Some ==> id < oracles.len() && column_of(
            columns,
            id,
        )->0.len() == pow2(oracles[id as int].n_vars as nat)
}

/// Two to the power `n`, for an exponent within the limit on the number
/// of variables.
pub fn power_of_two(n: usize) -> (r: usize)
    requires
        n <= MAX_N_VARS,
    ensures
        r == pow2(n as nat),
{
    let mut r: usize = 1;
    let mut i: usize = 0;
    proof {
        lemma2_to64();
    }
    while i < n
        invariant
            i <= n <= MAX_N_VARS,
            r == pow2(i as nat),
            r <= pow2(30),
            pow2(30) == 0x40000000,
        decreases n - i,
    {
        proof {
            lemma_pow2_unfold((i + 1) as nat);
            if i + 1 < 30 {
                lemma_pow2_strictly_increases((i + 1) as nat, 30);
            }
        }
        r = r * 2;
        i += 1;
    }
    r
}

impl<F: Field> MultilinearExtensionIndex<F> {
    /// Whether the store fits the oracle set: every column belongs to an
    /// oracle of the set and has one value for each vertex of its
    /// hypercube.
    pub fn fits(&self, oracles: &MultilinearOracleSet<F>) -> (ok: bool)
        requires
            oracles.wf(),
        ensures
            ok == witness_fits(oracles.oracles@, self.columns@),
    {
        let mut id: usize = 0;
        while id < self.columns.len()
            invariant
                id <= self.columns@.len(),
                oracles.wf(),
                forall|other: OracleId|
                    other < id && (#[trigger] column_of(self.columns@, other)) is Some ==> other
                        < oracles.oracles@.len() && column_of(self.columns@, other)->0.len()
                        == pow2(oracles.oracles@[other as int].n_vars as nat),
            decreases self.columns@.len() - id,
        {
            match &self.columns[id] {
                Some(column) => {
                    if id >= oracles.size() {
                        assert(column_of(self.columns@, id) is Some);
                        return false;
                    }
                    assert(oracle_fits(oracles.oracles@, id as int));
                    if column.len() != power_of_two(oracles.n_vars(id)) {
                        assert(column_of(self.columns@, id) is Some);
                        return false;
                    }
                },
                None => {},
            }
            id += 1;
        }
        true
    }

    /// An empty witness store.
    pub fn new() -> (w: Self)
        ensures
            w.columns@.len() == 0,
    {
        MultilinearExtensionIndex { columns: Vec::new() }
    }

    /// Whether the store holds a column for `id`.
    pub fn has(&self, id: OracleId) -> (b: bool)
        ensures
            b == column_of(self.columns@, id) is Some,
    {
        if id < self.columns.len() {
            self.columns[id].is_some()
        } else {
            false
        }
    }

    /// The column of the oracle `id`. Fails with `MissingWitness` exactly
    /// when the store holds none for it.
    pub fn get_multilin_poly(&self, id: OracleId) -> (r: Result<&Vec<F>, WitnessError>)
        ensures
            match r {
                Ok(col) => column_of(self.columns@, id) == Some(col@),
                Err(e) => column_of(self.columns@, id) is None && e == (
                WitnessError::MissingWitness { id }),
            },
    {
        if id < self.columns.len() {
            match &self.columns[id] {
                Some(col) => Ok(col),
                None => Err(WitnessError::MissingWitness { id }),
            }
        } else {
            Err(WitnessError::MissingWitness { id })
        }
    }

    /// Stores `column` as the witness of the oracle `id`, replacing any
    /// column stored for it before. The other columns stay as they are.
    pub fn update_multilin_poly(&mut self, id: OracleId, column: Vec<F>)
        ensures
            column_of(final(self).columns@, id) == Some(column@),
            forall|other: OracleId|
                other != id ==> column_of(final(self).columns@, other) == column_of(
                    old(self).columns@,
                    other,
                ),
    {
        while self.columns.len() <= id
            invariant
                forall|other: OracleId|
                    column_of(self.columns@, other) == column_of(old(self).columns@, other),
            decreases id + 1 - self.columns@.len(),
        {
            self.columns.push(None);
        }
        self.columns.set(id, Some(column));
    }
}

/// Computes the tensor expansion of each point, the points shared out
/// among the threads of the pool.
///
/// Wraps `par_iter`, `map` and `collect` of rayon, which hand each point
/// to [`tensor_expand`] and collect the results in the order of the
/// points.
#[verifier::external_body]
fn tensor_expand_par<F: Field>(points: &Vec<Vec<F>>) -> (r: Vec<Vec<F>>)
    ensures
        r@.len() == points@.len(),
        forall|i: int|
            0 <= i < points@.len() ==> (#[trigger] r@[i])@ == tensor_expansion(points@[i]@),
{
    points.par_iter().map(|point| tensor_expand(point)).collect()
}

/// Whether one of the points is `point`.
fn holds_point<F: Field>(points: &Vec<Vec<F>>, point: &Vec<F>) -> (b: bool)
    ensures
        b == exists|i: int| 0 <= i < points@.len() && (#[trigger] points@[i])@ == point@,
{
    let mut i: usize = 0;
    while i < points.len()
        invariant
            i <= points@.len(),
            forall|j: int| 0 <= j < i ==> (#[trigger] points@[j])@ != point@,
        decreases points@.len() - i,
    {
        if points_equal(&points[i], point) {
            return true;
        }
        i += 1;
    }
    false
}

/// Tensor expansions of evaluation points, computed once and shared by all
/// claims at the same point.
pub struct MemoizedQueries<F> {
    memo: Vec<(Vec<F>, Vec<F>)>,
}

impl<F: Field> MemoizedQueries<F> {
    /// Every stored expansion is the tensor expansion of its point.
    pub closed spec fn wf(&self) -> bool {
        forall|i: int|
            0 <= i < self.memo@.len() ==> (#[trigger] self.memo@[i]).1@ == tensor_expansion(
                self.memo@[i].0@,
            )
    }

    /// Whether the expansion of `point` is stored.
    pub closed spec fn memoized(&self, point: Seq<F>) -> bool {
        exists|i: int| 0 <= i < self.memo@.len() && (#[trigger] self.memo@[i]).0@ == point
    }

    /// A memoizer that holds nothing.
    pub fn new() -> (m: Self)
        ensures
            m.wf(),
            forall|point: Seq<F>| !m.memoized(point),
    {
        MemoizedQueries { memo: Vec::new() }
    }

    /// The stored tensor expansion of `point`, if it was memoized.
    pub fn full_query_readonly(&self, point: &Vec<F>) -> (r: Option<&Vec<F>>)
        requires
            self.wf(),
        ensures
            r is Some == self.memoized(point@),
            r is Some ==> r->0@ == tensor_expansion(point@),
    {
        let mut i: usize = 0;
        while i < self.memo.len()
            invariant
                i <= self.memo@.len(),
                self.wf(),
                forall|j: int| 0 <= j < i ==> (#[trigger] self.memo@[j]).0@ != point@,
            decreases self.memo@.len() - i,
        {
            if points_equal(&self.memo[i].0, point) {
                assert(self.memo@[i as int].0@ == point@);
                return Some(&self.memo[i].1);
            }
            i += 1;
        }
        None
    }

    /// Stores the tensor expansions of those of the points that are not
    /// stored yet, each once. The expansions are computed in parallel.
    pub fn memoize_query_par(&mut self, points: &Vec<Vec<F>>)
        requires
            old(self).wf(),
        ensures
            final(self).wf(),
            forall|i: int| 0 <= i < points@.len() ==> final(self).memoized((#[trigger] points@[i])@),
            forall|p: Seq<F>| old(self).memoized(p) ==> final(self).memoized(p),
    {
        let mut missing: Vec<Vec<F>> = Vec::new();
        let mut i: usize = 0;
        while i < points.len()
            invariant
                i <= points@.len(),
                self.wf(),
                forall|j: int|
                    0 <= j < i ==> self.memoized((#[trigger] points@[j])@) || exists|k: int|
                        0 <= k < missing@.len() && (#[trigger] missing@[k])@ == points@[j]@,
            decreases points@.len() - i,
        {
            if self.full_query_readonly(&points[i]).is_none() && !holds_point(&missing, &points[i]) {
                let ghost before = missing@;
                missing.push(clone_point(&points[i]));
                proof {
                    assert(missing@[before.len() as int]@ == points@[i as int]@);
                    assert forall|j: int| 0 <= j < i implies self.memoized(
                        (#[trigger] points@[j])@,
                    ) || exists|k: int|
                        0 <= k < missing@.len() && (#[trigger] missing@[k])@ == points@[j]@ by {
                        if !self.memoized(points@[j]@) {
                            let k = choose|k: int|
                                0 <= k < before.len() && (#[trigger] before[k])@ == points@[j]@;
                            assert(missing@[k] == before[k]);
                        }
                    }
                }
            }
            i += 1;
        }
        let mut expansions = tensor_expand_par(&missing);
        let ghost all_points = missing@;
        let ghost start = self.memo@;
        while missing.len() > 0
            invariant
                self.wf(),
                missing@.len() == expansions@.len(),
                missing@.len() <= all_points.len(),
                forall|k: int|
                    0 <= k < missing@.len() ==> (#[trigger] missing@[k]) == all_points[k]
                        && expansions@[k]@ == tensor_expansion(missing@[k]@),
                forall|k: int|
                    missing@.len() <= k < all_points.len() ==> self.memoized(
                        (#[trigger] all_points[k])@,
                    ),
                forall|p: Seq<F>| old(self).memoized(p) ==> self.memoized(p),
            decreases missing@.len(),
        {
            let ghost before = self.memo@;
            let ghost n = missing@.len() - 1;
            let point = missing.pop().unwrap();
            let expansion = expansions.pop().unwrap();
            self.memo.push((point, expansion));
            proof {
                assert(self.memo@[before.len() as int].0@ == all_points[n]@);
                assert forall|p: Seq<F>|
                    (exists|i: int| 0 <= i < before.len() && (#[trigger] before[i]).0@ == p)
                    implies self.memoized(p) by {
                    let i = choose|i: int| 0 <= i < before.len() && (#[trigger] before[i]).0@ == p;
                    assert(self.memo@[i] == before[i]);
                }
            }
        }
        proof {
            assert forall|i: int| 0 <= i < points@.len() implies self.memoized(
                (#[trigger] points@[i])@,
            ) by {
                if !self.memoized(points@[i]@) {
                    let k = choose|k: int|
                        0 <= k < all_points.len() && (#[trigger] all_points[k])@ == points@[i]@;
                    assert(self.memoized(all_points[k]@));
                }
            }
        }
    }

    /// Stores the tensor expansion of `point` unless it is stored already.
    pub fn memoize_query(&mut self, point: &Vec<F>)
        requires
            old(self).wf(),
        ensures
            final(self).wf(),
            final(self).memoized(point@),
            forall|p: Seq<F>| old(self).memoized(p) ==> final(self).memoized(p),
    {
        if self.full_query_readonly(point).is_some() {
            return ;
        }
        let expansion = tensor_expand(point);
        let ghost before = self.memo@;
        self.memo.push((clone_point(point), expansion));
        proof {
            assert(self.memo@[before.len() as int].0@ == point@);
            assert forall|p: Seq<F>| old(self).memoized(p) implies self.memoized(p) by {
                let i = choose|i: int| 0 <= i < before.len() && (#[trigger] before[i]).0@ == p;
                assert(self.memo@[i] == before[i]);
            }
        }
    }
}

} // verus!
