use vstd::prelude::*;
use vstd::arithmetic::power2::{lemma_pow2_adds, lemma_pow2_pos, pow2};
use rayon::iter::{IntoParallelRefIterator, ParallelIterator};
use crate::error::{Error, WitnessError};
use crate::evalcheck::{clone_point, ClaimSpec};
use crate::field::Field;
use crate::multilinear::{
    evaluate_partial_high, lemma_tensor_expansion_len, partial_high_spec, tensor_expansion,
};
use crate::oracle::{
    oracle_fits, MultilinearOracleSet, MultilinearPolyOracle, OracleId, OracleVariant,
    ProjectionVariant, ShiftVariant, TransparentPoly,
};
use crate::sumcheck::{BivariateSumcheck, ConstraintSetBuilder};
use crate::witness::{column_of, MemoizedQueries, MultilinearExtensionIndex};

verus! {

/// Which polynomials the sumcheck instance of a claim on a shifted or
/// packed oracle multiplies.
#[derive(Clone, Copy, Debug, PartialEq, Eq, Structural)]
pub struct ProjectedBivariateMeta {
    /// The oracle that is shifted or packed.
    pub inner_id: OracleId,
    /// The projection of the inner oracle onto its low variables, where
    /// one is needed.
    pub projected_id: Option<OracleId>,
    /// The transparent multiplier.
    pub multiplier_id: OracleId,
    /// The number of variables that the sumcheck runs over.
    pub projected_n_vars: usize,
}

/// Whether claims on oracles of this kind become sumcheck instances.
pub open spec fn is_bivariate<F>(variant: OracleVariant<F>) -> bool {
    variant is Shifted || variant is Packed
}

/// The oracle that a shifted or packed oracle is built from.
pub open spec fn bivariate_inner<F>(variant: OracleVariant<F>) -> OracleId {
    match variant {
        OracleVariant::Shifted { inner, .. } => inner,
        OracleVariant::Packed { inner, .. } => inner,
        _ => 0,
    }
}

/// The number of low variables that the sumcheck of a claim runs over:
/// those of a block of a shifted oracle, those packed by a packed one.
pub open spec fn projected_size<F>(variant: OracleVariant<F>) -> usize {
    match variant {
        OracleVariant::Shifted { block_size, .. } => block_size,
        OracleVariant::Packed { log_degree, .. } => log_degree,
        _ => 0,
    }
}

/// The part of the claim's point that fixes the high variables of the
/// inner oracle.
pub open spec fn high_point<F>(variant: OracleVariant<F>, point: Seq<F>) -> Seq<F> {
    match variant {
        OracleVariant::Shifted { block_size, .. } => point.skip(block_size as int),
        _ => point,
    }
}

/// The part of the claim's point at which the multiplier is partially
/// evaluated.
pub open spec fn low_point<F>(variant: OracleVariant<F>, point: Seq<F>) -> Seq<F> {
    match variant {
        OracleVariant::Shifted { block_size, .. } => point.take(block_size as int),
        _ => Seq::empty(),
    }
}

/// Whether the inner oracle has more variables than the sumcheck runs
/// over, so that it has to be projected first.
pub open spec fn needs_projection<F>(
    oracles: Seq<MultilinearPolyOracle<F>>,
    variant: OracleVariant<F>,
) -> bool {
    projected_size(variant) < oracles[bivariate_inner(variant) as int].n_vars
}

/// The number of oracles that the sumcheck instance of a claim adds.
pub open spec fn added_count<F>(oracles: Seq<MultilinearPolyOracle<F>>, claim: ClaimSpec<F>) -> nat {
    if needs_projection(oracles, oracles[claim.id as int].variant) {
        2
    } else {
        1
    }
}

/// The meta of a claim whose new oracles are added from position `base`
/// on: the projection first, where one is needed, then the multiplier.
pub open spec fn meta_at<F>(
    oracles: Seq<MultilinearPolyOracle<F>>,
    claim: ClaimSpec<F>,
    base: int,
) -> ProjectedBivariateMeta {
    let variant = oracles[claim.id as int].variant;
    if needs_projection(oracles, variant) {
        ProjectedBivariateMeta {
            inner_id: bivariate_inner(variant),
            projected_id: Some(base as usize),
            multiplier_id: (base + 1) as usize,
            projected_n_vars: projected_size(variant),
        }
    } else {
        ProjectedBivariateMeta {
            inner_id: bivariate_inner(variant),
            projected_id: None,
            multiplier_id: base as usize,
            projected_n_vars: projected_size(variant),
        }
    }
}

/// Whether `oracle` is the projection of `inner` with its last variables
/// fixed to `values`.
pub open spec fn is_projection<F>(
    oracle: MultilinearPolyOracle<F>,
    inner: OracleId,
    values: Seq<F>,
    n_vars: usize,
) -> bool {
    &&& oracle.n_vars == n_vars
    &&& oracle.variant matches OracleVariant::Projected { inner: i, values: v, variant }
    &&& i == inner
    &&& v@ == values
    &&& variant == ProjectionVariant::LastVars
}

/// Whether `oracle` is the transparent multiplier of a claim at `point`
/// on an oracle of kind `variant`: the shift indicator of the block
/// partially evaluated at the low part of the point, or the tower basis.
pub open spec fn is_multiplier<F>(
    oracle: MultilinearPolyOracle<F>,
    variant: OracleVariant<F>,
    point: Seq<F>,
) -> bool {
    &&& oracle.n_vars == projected_size(variant)
    &&& oracle.variant matches OracleVariant::Transparent { poly }
    &&& match variant {
        OracleVariant::Shifted { inner, shift_offset, block_size, shift_variant } => {
            &&& poly matches TransparentPoly::ShiftIndPartialEval {
                block_size: b,
                shift_offset: s,
                shift_variant: v,
                r,
            }
            &&& b == block_size
            &&& s == shift_offset
            &&& v == shift_variant
            &&& r@ == low_point(variant, point)
        },
        OracleVariant::Packed { inner, log_degree } => {
            &&& poly matches TransparentPoly::TowerBasis { log_degree: d }
            &&& d == log_degree
        },
        _ => false,
    }
}

/// The coordinates of a point from position `n` on.
pub fn suffix_point<F: Field>(point: &Vec<F>, n: usize) -> (r: Vec<F>)
    requires
        n <= point@.len(),
    ensures
        r@ == point@.skip(n as int),
{
    let mut r: Vec<F> = Vec::new();
    let mut i: usize = n;
    while i < point.len()
        invariant
            n <= i <= point@.len(),
            r@ == point@.subrange(n as int, i as int),
        decreases point@.len() - i,
    {
        r.push(point[i]);
        assert(r@ =~= point@.subrange(n as int, i + 1));
        i += 1;
    }
    assert(point@.subrange(n as int, point@.len() as int) =~= point@.skip(n as int));
    r
}

/// The first `n` coordinates of a point.
pub fn low_coordinates<F: Field>(point: &Vec<F>, n: usize) -> (r: Vec<F>)
    requires
        n <= point@.len(),
    ensures
        r@ == point@.take(n as int),
{
    let mut r: Vec<F> = Vec::new();
    let mut i: usize = 0;
    while i < n
        invariant
            i <= n <= point@.len(),
            r@ == point@.take(i as int),
        decreases n - i,
    {
        r.push(point[i]);
        assert(r@ =~= point@.take(i + 1));
        i += 1;
    }
    r
}

/// Adds the oracles of a sumcheck instance: the projection of the inner
/// oracle onto its first `projected_n_vars` variables, where it has more,
/// with the rest fixed to `high_values`, and then the multiplier.
fn add_bivariate_oracles<F: Field>(
    oracles: &mut MultilinearOracleSet<F>,
    inner_id: OracleId,
    projected_n_vars: usize,
    high_values: Vec<F>,
    multiplier: TransparentPoly<F>,
) -> (r: Result<ProjectedBivariateMeta, Error>)
    requires
        old(oracles).wf(),
        inner_id < old(oracles).oracles@.len(),
        projected_n_vars <= old(oracles).oracles@[inner_id as int].n_vars,
        projected_n_vars < old(oracles).oracles@[inner_id as int].n_vars ==> high_values@.len()
            + projected_n_vars == old(oracles).oracles@[inner_id as int].n_vars,
    ensures
        final(oracles).wf(),
        r is Ok,
        final(oracles).oracles@.take(old(oracles).oracles@.len() as int) == old(oracles).oracles@,
        r->Ok_0.inner_id == inner_id,
        r->Ok_0.projected_n_vars == projected_n_vars,
        projected_n_vars < old(oracles).oracles@[inner_id as int].n_vars ==> {
            &&& final(oracles).oracles@.len() == old(oracles).oracles@.len() + 2
            &&& r->Ok_0.projected_id == Some(old(oracles).oracles@.len() as usize)
            &&& r->Ok_0.multiplier_id == old(oracles).oracles@.len() + 1
            &&& is_projection(
                final(oracles).oracles@[old(oracles).oracles@.len() as int],
                inner_id,
                high_values@,
                projected_n_vars,
            )
        },
        projected_n_vars >= old(oracles).oracles@[inner_id as int].n_vars ==> {
            &&& final(oracles).oracles@.len() == old(oracles).oracles@.len() + 1
            &&& r->Ok_0.projected_id is None
            &&& r->Ok_0.multiplier_id == old(oracles).oracles@.len()
        },
        final(oracles).oracles@[r->Ok_0.multiplier_id as int] == (MultilinearPolyOracle {
            n_vars: projected_n_vars,
            variant: OracleVariant::Transparent { poly: multiplier },
        }),
{
    let ghost before = oracles.oracles@;
    proof {
        assert(oracle_fits(before, inner_id as int));
        assert(oracles.oracles.len() == before.len());
    }
    let inner_n_vars = oracles.n_vars(inner_id);
    let projected_id = if projected_n_vars < inner_n_vars {
        let projection = MultilinearPolyOracle {
            n_vars: projected_n_vars,
            variant: OracleVariant::Projected {
                inner: inner_id,
                values: high_values,
                variant: ProjectionVariant::LastVars,
            },
        };
        proof {
            let next = before.push(projection);
            assert(next[before.len() as int] == projection);
            assert(next[inner_id as int] == before[inner_id as int]);
            assert(oracle_fits(next, before.len() as int));
        }
        match oracles.add(projection) {
            Ok(id) => Some(id),
            Err(e) => {
                return Err(Error::Oracle(e));
            },
        }
    } else {
        None
    };
    let ghost middle = oracles.oracles@;
    proof {
        assert(oracles.oracles.len() == middle.len());
    }
    let transparent = MultilinearPolyOracle {
        n_vars: projected_n_vars,
        variant: OracleVariant::Transparent { poly: multiplier },
    };
    proof {
        let next = middle.push(transparent);
        assert(next[middle.len() as int] == transparent);
        assert(oracle_fits(next, middle.len() as int));
    }
    let multiplier_id = match oracles.add(transparent) {
        Ok(id) => id,
        Err(e) => {
            return Err(Error::Oracle(e));
        },
    };
    proof {
        assert(oracles.oracles@.take(before.len() as int) =~= before);
    }
    Ok(ProjectedBivariateMeta { inner_id, projected_id, multiplier_id, projected_n_vars })
}

/// The position at which the oracles of the `i`-th claim are added, where
/// the set held `oracles` before the first.
pub open spec fn base_of<F>(
    oracles: Seq<MultilinearPolyOracle<F>>,
    claims: Seq<ClaimSpec<F>>,
    i: nat,
) -> nat
    decreases i,
{
    if i == 0 {
        oracles.len()
    } else {
        base_of(oracles, claims, (i - 1) as nat) + added_count(oracles, claims[i - 1])
    }
}

/// The meta of the `i`-th of the claims.
pub open spec fn meta_of<F>(
    oracles: Seq<MultilinearPolyOracle<F>>,
    claims: Seq<ClaimSpec<F>>,
    i: int,
) -> ProjectedBivariateMeta {
    meta_at(oracles, claims[i], base_of(oracles, claims, i as nat) as int)
}

/// Whether `after` holds the multiplier of the `i`-th claim, and its
/// projection where it needs one, where its meta says.
pub open spec fn added_ok<F>(
    oracles: Seq<MultilinearPolyOracle<F>>,
    after: Seq<MultilinearPolyOracle<F>>,
    claims: Seq<ClaimSpec<F>>,
    i: int,
) -> bool {
    let meta = meta_of(oracles, claims, i);
    let variant = oracles[claims[i].id as int].variant;
    &&& meta.multiplier_id < after.len()
    &&& is_multiplier(after[meta.multiplier_id as int], variant, claims[i].point)
    &&& meta.projected_id matches Some(pid) ==> pid < after.len() && is_projection(
        after[pid as int],
        meta.inner_id,
        high_point(variant, claims[i].point),
        meta.projected_n_vars,
    )
}

/// Whether `after` holds `oracles` followed by the oracles of the sumcheck
/// instances of the first `n` claims, claim after claim.
pub open spec fn oracles_extended<F>(
    oracles: Seq<MultilinearPolyOracle<F>>,
    after: Seq<MultilinearPolyOracle<F>>,
    claims: Seq<ClaimSpec<F>>,
    n: nat,
) -> bool {
    &&& after.len() == base_of(oracles, claims, n)
    &&& after.take(oracles.len() as int) == oracles
    &&& forall|i: int| 0 <= i < n ==> #[trigger] added_ok(oracles, after, claims, i)
}

/// The evaluations of the projection that the sumcheck instance of a
/// claim runs over: the column of the inner oracle with its high variables
/// fixed to the high part of the claim's point.
pub open spec fn projected_column<F: Field>(
    oracles: Seq<MultilinearPolyOracle<F>>,
    columns: Seq<Option<Vec<F>>>,
    claim: ClaimSpec<F>,
) -> Seq<F> {
    let variant = oracles[claim.id as int].variant;
    partial_high_spec(
        column_of(columns, bivariate_inner(variant))->0,
        tensor_expansion(high_point(variant, claim.point)),
        pow2(projected_size(variant) as nat),
    )
}

/// Whether the `i`-th claim has to be projected and the witness holds no
/// column of its inner oracle, while it holds one for each claim before
/// it that has to be projected.
pub open spec fn first_unprojectable<F>(
    oracles: Seq<MultilinearPolyOracle<F>>,
    columns: Seq<Option<Vec<F>>>,
    claims: Seq<ClaimSpec<F>>,
    i: int,
) -> bool {
    &&& 0 <= i < claims.len()
    &&& !projectable_one(oracles, columns, claims[i])
    &&& forall|j: int| 0 <= j < i ==> projectable_one(oracles, columns, #[trigger] claims[j])
}

/// Whether the claim needs no projection or the witness holds the column
/// of its inner oracle.
pub open spec fn projectable_one<F>(
    oracles: Seq<MultilinearPolyOracle<F>>,
    columns: Seq<Option<Vec<F>>>,
    claim: ClaimSpec<F>,
) -> bool {
    let variant = oracles[claim.id as int].variant;
    needs_projection(oracles, variant) ==> column_of(columns, bivariate_inner(variant)) is Some
}

/// Whether every claim that has to be projected can be.
pub open spec fn projectable<F>(
    oracles: Seq<MultilinearPolyOracle<F>>,
    columns: Seq<Option<Vec<F>>>,
    claims: Seq<ClaimSpec<F>>,
) -> bool {
    forall|i: int| 0 <= i < claims.len() ==> projectable_one(oracles, columns, #[trigger] claims[i])
}

/// Whether `e` reports the inner oracle of the first claim that cannot be
/// projected.
pub open spec fn reports_first_unprojectable<F>(
    oracles: Seq<MultilinearPolyOracle<F>>,
    columns: Seq<Option<Vec<F>>>,
    claims: Seq<ClaimSpec<F>>,
    e: Error,
) -> bool {
    exists|i: int| #[trigger]
        first_unprojectable(oracles, columns, claims, i) && e == Error::Witness(
            WitnessError::MissingWitness {
                id: bivariate_inner(oracles[claims[i].id as int].variant),
            },
        )
}

/// The sumcheck instance of a claim: the projection, or the inner oracle
/// where none is needed, times the multiplier sums to the claimed value.
pub open spec fn sumcheck_of<F>(
    meta: ProjectedBivariateMeta,
    claim: ClaimSpec<F>,
) -> BivariateSumcheck<F> {
    BivariateSumcheck {
        projected_id: match meta.projected_id {
            Some(pid) => pid,
            None => meta.inner_id,
        },
        multiplier_id: meta.multiplier_id,
        sum: claim.eval,
    }
}

/// The constraints of each builder, the builders in order.
pub open spec fn builders_view<F>(
    builders: Seq<ConstraintSetBuilder<F>>,
) -> Seq<Seq<BivariateSumcheck<F>>> {
    Seq::new(builders.len(), |i: int| builders[i].constraints@)
}

/// `n` builders without constraints.
pub open spec fn empty_builders<F>(n: nat) -> Seq<Seq<BivariateSumcheck<F>>> {
    Seq::new(n, |i: int| Seq::empty())
}

/// The builders after `constraint` joined those over `n_vars` variables.
/// Where there are not that many builders yet, empty ones fill the gap.
pub open spec fn add_to_builders<F>(
    builders: Seq<Seq<BivariateSumcheck<F>>>,
    n_vars: nat,
    constraint: BivariateSumcheck<F>,
) -> Seq<Seq<BivariateSumcheck<F>>> {
    let grown = if n_vars < builders.len() {
        builders
    } else {
        builders + empty_builders((n_vars + 1 - builders.len()) as nat)
    };
    grown.update(n_vars as int, grown[n_vars as int].push(constraint))
}

/// The builders after the sumcheck instances of the first `n` claims
/// joined them, claim after claim.
pub open spec fn builders_after<F>(
    oracles: Seq<MultilinearPolyOracle<F>>,
    builders: Seq<Seq<BivariateSumcheck<F>>>,
    claims: Seq<ClaimSpec<F>>,
    n: nat,
) -> Seq<Seq<BivariateSumcheck<F>>>
    decreases n,
{
    if n == 0 {
        builders
    } else {
        let meta = meta_of(oracles, claims, n - 1);
        add_to_builders(
            builders_after(oracles, builders, claims, (n - 1) as nat),
            meta.projected_n_vars as nat,
            sumcheck_of(meta, claims[n - 1]),
        )
    }
}

/// Adds a sumcheck instance to the builder of its arity.
pub fn add_bivariate_sumcheck_to_constraints<F: Field>(
    meta: ProjectedBivariateMeta,
    constraint_builders: &mut Vec<ConstraintSetBuilder<F>>,
    n_vars: usize,
    eval: F,
)
    ensures
        builders_view(final(constraint_builders)@) == add_to_builders(
            builders_view(old(constraint_builders)@),
            n_vars as nat,
            BivariateSumcheck {
                projected_id: match meta.projected_id {
                    Some(pid) => pid,
                    None => meta.inner_id,
                },
                multiplier_id: meta.multiplier_id,
                sum: eval,
            },
        ),
{
    let ghost start = builders_view(constraint_builders@);
    while constraint_builders.len() <= n_vars
        invariant
            start.len() <= constraint_builders@.len(),
            constraint_builders@.len() == start.len() || constraint_builders@.len() <= n_vars + 1,
            builders_view(constraint_builders@) == start + empty_builders(
                (constraint_builders@.len() - start.len()) as nat,
            ),
            start == builders_view(old(constraint_builders)@),
        decreases n_vars + 1 - constraint_builders@.len(),
    {
        let ghost before = constraint_builders@;
        constraint_builders.push(ConstraintSetBuilder::new());
        proof {
            let now = builders_view(constraint_builders@);
            let target = start + empty_builders::<F>((constraint_builders@.len() - start.len()) as nat);
            let prior = start + empty_builders::<F>((before.len() - start.len()) as nat);
            assert(builders_view(before) == prior);
            assert forall|i: int| 0 <= i < now.len() implies now[i] =~= target[i] by {
                if i < before.len() {
                    assert(constraint_builders@[i] == before[i]);
                    assert(now[i] == builders_view(before)[i]);
                    assert(prior[i] == target[i]);
                }
            }
            assert(now =~= target);
        }
    }
    let ghost grown = builders_view(constraint_builders@);
    let ghost before = constraint_builders@;
    let inner_id = match meta.projected_id {
        Some(pid) => pid,
        None => meta.inner_id,
    };
    constraint_builders[n_vars].add_sumcheck(inner_id, meta.multiplier_id, eval);
    proof {
        if n_vars < start.len() {
            assert(empty_builders::<F>(0) =~= Seq::empty());
            assert(grown =~= start);
        }
        assert(forall|i: int| 0 <= i < before.len() && i != n_vars ==> constraint_builders@[i] == before[i]);
        assert(builders_view(constraint_builders@) =~= grown.update(
            n_vars as int,
            grown[n_vars as int].push(
                BivariateSumcheck { projected_id: inner_id, multiplier_id: meta.multiplier_id, sum: eval },
            ),
        ));
    }
}

/// Adds the oracles of the sumcheck instance of a claim at `eval_point`
/// on an oracle that shifts `inner` within blocks of `2^block_size`.
pub fn shifted_sumcheck_meta<F: Field>(
    oracles: &mut MultilinearOracleSet<F>,
    inner: OracleId,
    shift_offset: usize,
    block_size: usize,
    shift_variant: ShiftVariant,
    eval_point: &Vec<F>,
) -> (r: Result<ProjectedBivariateMeta, Error>)
    requires
        old(oracles).wf(),
        inner < old(oracles).oracles@.len(),
        block_size <= eval_point@.len(),
        eval_point@.len() == old(oracles).oracles@[inner as int].n_vars,
    ensures
        final(oracles).wf(),
        r is Ok,
        meta_added_parts(
            old(oracles).oracles@,
            final(oracles).oracles@,
            r->Ok_0,
            inner,
            block_size,
            eval_point@.skip(block_size as int),
        ),
        final(oracles).oracles@[r->Ok_0.multiplier_id as int].variant matches OracleVariant::Transparent {
            poly: TransparentPoly::ShiftIndPartialEval {
                block_size: b,
                shift_offset: s,
                shift_variant: v,
                r: low,
            },
        } && b == block_size && s == shift_offset && v == shift_variant && low@
            == eval_point@.take(block_size as int),
{
    let high = suffix_point(eval_point, block_size);
    let low = low_coordinates(eval_point, block_size);
    add_bivariate_oracles(
        oracles,
        inner,
        block_size,
        high,
        TransparentPoly::ShiftIndPartialEval { block_size, shift_offset, shift_variant, r: low },
    )
}

/// Adds the oracles of the sumcheck instance of a claim at `eval_point`
/// on an oracle that packs `2^log_degree` values of `inner` into one.
pub fn packed_sumcheck_meta<F: Field>(
    oracles: &mut MultilinearOracleSet<F>,
    inner: OracleId,
    log_degree: usize,
    eval_point: &Vec<F>,
) -> (r: Result<ProjectedBivariateMeta, Error>)
    requires
        old(oracles).wf(),
        inner < old(oracles).oracles@.len(),
        eval_point@.len() + log_degree == old(oracles).oracles@[inner as int].n_vars,
    ensures
        final(oracles).wf(),
        r is Ok,
        meta_added_parts(
            old(oracles).oracles@,
            final(oracles).oracles@,
            r->Ok_0,
            inner,
            log_degree,
            eval_point@,
        ),
        final(oracles).oracles@[r->Ok_0.multiplier_id as int].variant matches OracleVariant::Transparent {
            poly: TransparentPoly::TowerBasis { log_degree: d },
        } && d == log_degree,
{
    add_bivariate_oracles(
        oracles,
        inner,
        log_degree,
        clone_point(eval_point),
        TransparentPoly::TowerBasis { log_degree },
    )
}

/// Whether `after` holds the oracles of `before` followed by a projection
/// of `inner` onto `projected_n_vars` variables, where it has more, and a
/// multiplier over as many variables, and `meta` names them.
pub open spec fn meta_added_parts<F>(
    before: Seq<MultilinearPolyOracle<F>>,
    after: Seq<MultilinearPolyOracle<F>>,
    meta: ProjectedBivariateMeta,
    inner: OracleId,
    projected_n_vars: usize,
    high: Seq<F>,
) -> bool {
    let needed = projected_n_vars < before[inner as int].n_vars;
    &&& after.take(before.len() as int) == before
    &&& after.len() == before.len() + (if needed { 2int } else { 1int })
    &&& meta.inner_id == inner
    &&& meta.projected_n_vars == projected_n_vars
    &&& meta.projected_id == (if needed { Some(before.len() as usize) } else { None })
    &&& meta.multiplier_id == (if needed { before.len() + 1 } else { before.len() + 0 })
    &&& after[meta.multiplier_id as int].n_vars == projected_n_vars
    &&& after[meta.multiplier_id as int].variant is Transparent
    &&& needed ==> is_projection(after[before.len() as int], inner, high, projected_n_vars)
}

/// The fixed values of a projection.
pub open spec fn projection_values<F>(oracle: MultilinearPolyOracle<F>) -> Seq<F> {
    match oracle.variant {
        OracleVariant::Projected { inner, values, variant } => values@,
        _ => Seq::empty(),
    }
}

/// Whether the projection that `meta` names, if it names one, is an
/// oracle of the set that projects the inner oracle of `meta` onto as
/// many variables as `meta` says.
pub open spec fn meta_ready<F>(
    oracles: Seq<MultilinearPolyOracle<F>>,
    meta: ProjectedBivariateMeta,
) -> bool {
    meta.projected_id matches Some(pid) ==> {
        &&& pid < oracles.len()
        &&& meta.inner_id < oracles.len()
        &&& is_projection(
            oracles[pid as int],
            meta.inner_id,
            projection_values(oracles[pid as int]),
            meta.projected_n_vars,
        )
        &&& projection_values(oracles[pid as int]).len() + meta.projected_n_vars
            == oracles[meta.inner_id as int].n_vars
    }
}

/// The evaluations of the projection that `meta` names.
pub open spec fn mle_of<F: Field>(
    oracles: Seq<MultilinearPolyOracle<F>>,
    columns: Seq<Option<Vec<F>>>,
    meta: ProjectedBivariateMeta,
) -> Seq<F> {
    partial_high_spec(
        column_of(columns, meta.inner_id)->0,
        tensor_expansion(projection_values(oracles[meta.projected_id->0 as int])),
        pow2(meta.projected_n_vars as nat),
    )
}

/// What computing the evaluations of the projection of `meta` returns:
/// nothing where `meta` names no projection, `MissingWitness` where the
/// witness holds no column of the inner oracle, and else the evaluations.
pub open spec fn projected_mle_result<F: Field>(
    oracles: Seq<MultilinearPolyOracle<F>>,
    columns: Seq<Option<Vec<F>>>,
    meta: ProjectedBivariateMeta,
    r: Result<Option<Vec<F>>, Error>,
) -> bool {
    if meta.projected_id is None {
        r == Ok::<Option<Vec<F>>, Error>(None)
    } else if column_of(columns, meta.inner_id) is None {
        r == Err::<Option<Vec<F>>, Error>(
            Error::Witness(WitnessError::MissingWitness { id: meta.inner_id }),
        )
    } else {
        r matches Ok(Some(mle)) && mle@ == mle_of(oracles, columns, meta)
    }
}

/// Whether the tensor expansion of the fixed values of the projection of
/// `meta`, if it names one, is memoized.
pub open spec fn meta_memoized<F: Field>(
    oracles: Seq<MultilinearPolyOracle<F>>,
    memoized_queries: MemoizedQueries<F>,
    meta: ProjectedBivariateMeta,
) -> bool {
    meta.projected_id matches Some(pid) ==> memoized_queries.memoized(
        projection_values(oracles[pid as int]),
    )
}

/// Whether the column of the inner oracle of `meta`, if the witness holds
/// one, has one value for each vertex of the inner oracle's hypercube.
pub open spec fn meta_column_fits<F>(
    oracles: Seq<MultilinearPolyOracle<F>>,
    columns: Seq<Option<Vec<F>>>,
    meta: ProjectedBivariateMeta,
) -> bool {
    column_of(columns, meta.inner_id) matches Some(col) ==> meta.inner_id < oracles.len()
        && col.len() == pow2(oracles[meta.inner_id as int].n_vars as nat)
}

/// Computes the evaluations of the projection that `meta` names: the
/// column of the inner oracle with its high variables fixed.
pub fn projected_mle_for<F: Field>(
    meta: &ProjectedBivariateMeta,
    oracles: &MultilinearOracleSet<F>,
    witness_index: &MultilinearExtensionIndex<F>,
    memoized_queries: &MemoizedQueries<F>,
) -> (r: Result<Option<Vec<F>>, Error>)
    requires
        memoized_queries.wf(),
        meta_ready(oracles.oracles@, *meta),
        meta_memoized(oracles.oracles@, *memoized_queries, *meta),
        meta_column_fits(oracles.oracles@, witness_index.columns@, *meta),
    ensures
        projected_mle_result(oracles.oracles@, witness_index.columns@, *meta, r),
{
    let pid = match meta.projected_id {
        Some(pid) => pid,
        None => {
            return Ok(None);
        },
    };
    let column = match witness_index.get_multilin_poly(meta.inner_id) {
        Ok(column) => column,
        Err(e) => {
            return Err(Error::Witness(e));
        },
    };
    let values = match &oracles.oracle(pid).variant {
        OracleVariant::Projected { values, .. } => values,
        _ => {
            return Err(Error::MissingQuery);
        },
    };
    let query = match memoized_queries.full_query_readonly(values) {
        Some(query) => query,
        None => {
            return Err(Error::MissingQuery);
        },
    };
    proof {
        let high = values@.len() as nat;
        let low = meta.projected_n_vars as nat;
        lemma_tensor_expansion_len(values@);
        lemma_pow2_adds(low, high);
        lemma_pow2_pos(high);
        lemma_pow2_pos(low);
        assert(column@.len() == pow2(low) * pow2(high));
        assert((pow2(low) * pow2(high)) / pow2(high) == pow2(low)) by (nonlinear_arith)
            requires
                pow2(high) > 0,
        ;
    }
    let len = column.len() / query.len();
    Ok(Some(evaluate_partial_high(column, query, len)))
}

/// Computes the evaluations of the projections of the metas, the metas
/// shared out among the threads of the pool.
///
/// Wraps `par_iter`, `map` and `collect` of rayon, which hand each meta
/// to [`projected_mle_for`] and collect the results in the order of the
/// metas.
#[verifier::external_body]
fn projected_mles_par<F: Field>(
    metas: &Vec<ProjectedBivariateMeta>,
    oracles: &MultilinearOracleSet<F>,
    witness_index: &MultilinearExtensionIndex<F>,
    memoized_queries: &MemoizedQueries<F>,
) -> (r: Vec<Result<Option<Vec<F>>, Error>>)
    requires
        memoized_queries.wf(),
        forall|i: int|
            0 <= i < metas@.len() ==> meta_ready(oracles.oracles@, #[trigger] metas@[i])
                && meta_memoized(oracles.oracles@, *memoized_queries, metas@[i])
                && meta_column_fits(oracles.oracles@, witness_index.columns@, metas@[i]),
    ensures
        r@.len() == metas@.len(),
        forall|i: int|
            0 <= i < metas@.len() ==> projected_mle_result(
                oracles.oracles@,
                witness_index.columns@,
                metas@[i],
                #[trigger] r@[i],
            ),
{
    metas.par_iter().map(
        |meta| projected_mle_for(meta, oracles, witness_index, memoized_queries),
    ).collect()
}

/// Whether the witness holds the column of the inner oracle of `meta`
/// where `meta` names a projection.
pub open spec fn meta_projectable<F>(
    columns: Seq<Option<Vec<F>>>,
    meta: ProjectedBivariateMeta,
) -> bool {
    meta.projected_id is Some ==> column_of(columns, meta.inner_id) is Some
}

/// Whether `i` is the position of the first meta whose projection cannot
/// be computed for want of a column.
pub open spec fn first_unready<F>(
    columns: Seq<Option<Vec<F>>>,
    metas: Seq<ProjectedBivariateMeta>,
    i: int,
) -> bool {
    &&& 0 <= i < metas.len()
    &&& !meta_projectable(columns, metas[i])
    &&& forall|j: int| 0 <= j < i ==> meta_projectable(columns, #[trigger] metas[j])
}

/// Computes the evaluations of the projections that the metas name. The
/// tensor expansions of the fixed values are memoized first; the
/// projections are then computed in parallel. Fails at the first meta
/// whose inner oracle has no column.
pub fn calculate_projected_mles<F: Field>(
    metas: &Vec<ProjectedBivariateMeta>,
    memoized_queries: &mut MemoizedQueries<F>,
    oracles: &MultilinearOracleSet<F>,
    witness_index: &MultilinearExtensionIndex<F>,
) -> (r: Result<Vec<Option<Vec<F>>>, Error>)
    requires
        old(memoized_queries).wf(),
        forall|i: int|
            0 <= i < metas@.len() ==> meta_ready(oracles.oracles@, #[trigger] metas@[i])
                && meta_column_fits(oracles.oracles@, witness_index.columns@, metas@[i]),
    ensures
        final(memoized_queries).wf(),
        match r {
            Ok(mles) => {
                &&& mles@.len() == metas@.len()
                &&& forall|i: int|
                    0 <= i < metas@.len() ==> projected_mle_result(
                        oracles.oracles@,
                        witness_index.columns@,
                        #[trigger] metas@[i],
                        Ok(mles@[i]),
                    )
            },
            Err(e) => exists|i: int| #[trigger]
                first_unready(witness_index.columns@, metas@, i) && e == Error::Witness(
                    WitnessError::MissingWitness { id: metas@[i].inner_id },
                ),
        },
{
    let mut points: Vec<Vec<F>> = Vec::new();
    let mut i: usize = 0;
    while i < metas.len()
        invariant
            i <= metas@.len(),
            forall|k: int|
                0 <= k < metas@.len() ==> meta_ready(oracles.oracles@, #[trigger] metas@[k]),
            forall|k: int|
                0 <= k < i ==> ((#[trigger] metas@[k]).projected_id matches Some(pid) ==> exists|
                    j: int,
                |
                    0 <= j < points@.len() && (#[trigger] points@[j])@ == projection_values(
                        oracles.oracles@[pid as int],
                    )),
        decreases metas@.len() - i,
    {
        match metas[i].projected_id {
            Some(pid) => {
                assert(meta_ready(oracles.oracles@, metas@[i as int]));
                match &oracles.oracle(pid).variant {
                    OracleVariant::Projected { values, .. } => {
                        let ghost before = points@;
                        points.push(clone_point(values));
                        proof {
                            assert(points@[before.len() as int]@ == projection_values(
                                oracles.oracles@[pid as int],
                            ));
                            assert forall|k: int| 0 <= k < i implies ((
                            #[trigger] metas@[k]).projected_id matches Some(p) ==> exists|j: int|
                                0 <= j < points@.len() && (#[trigger] points@[j])@
                                    == projection_values(oracles.oracles@[p as int])) by {
                                if metas@[k].projected_id is Some {
                                    let p = metas@[k].projected_id->0;
                                    let j = choose|j: int|
                                        0 <= j < before.len() && (#[trigger] before[j])@
                                            == projection_values(oracles.oracles@[p as int]);
                                    assert(points@[j] == before[j]);
                                }
                            }
                        }
                    },
                    _ => {},
                }
            },
            None => {},
        }
        i += 1;
    }
    memoized_queries.memoize_query_par(&points);
    proof {
        assert forall|k: int| 0 <= k < metas@.len() implies meta_memoized(
            oracles.oracles@,
            *memoized_queries,
            #[trigger] metas@[k],
        ) by {
            if metas@[k].projected_id is Some {
                let p = metas@[k].projected_id->0;
                let j = choose|j: int|
                    0 <= j < points@.len() && (#[trigger] points@[j])@ == projection_values(
                        oracles.oracles@[p as int],
                    );
                assert(memoized_queries.memoized(points@[j]@));
            }
        }
    }
    let results = projected_mles_par(metas, oracles, witness_index, memoized_queries);
    let mut mles: Vec<Option<Vec<F>>> = Vec::new();
    let mut j: usize = 0;
    while j < results.len()
        invariant
            j <= results@.len(),
            results@.len() == metas@.len(),
            memoized_queries.wf(),
            forall|i: int|
                0 <= i < metas@.len() ==> projected_mle_result(
                    oracles.oracles@,
                    witness_index.columns@,
                    metas@[i],
                    #[trigger] results@[i],
                ),
            mles@.len() == j,
            forall|i: int|
                0 <= i < j ==> projected_mle_result(
                    oracles.oracles@,
                    witness_index.columns@,
                    #[trigger] metas@[i],
                    Ok(mles@[i]),
                ),
            forall|i: int| 0 <= i < j ==> meta_projectable(witness_index.columns@, #[trigger] metas@[i]),
        decreases results@.len() - j,
    {
        assert(projected_mle_result(
            oracles.oracles@,
            witness_index.columns@,
            metas@[j as int],
            results@[j as int],
        ));
        match &results[j] {
            Ok(Some(mle)) => {
                mles.push(Some(clone_point(mle)));
            },
            Ok(None) => {
                mles.push(None);
            },
            Err(e) => {
                assert(first_unready(witness_index.columns@, metas@, j as int));
                return Err(*e);
            },
        }
        j += 1;
    }
    Ok(mles)
}

/// Whether `after` holds the columns of `columns` and, for each of the
/// first `n` claims that has to be projected, the evaluations of its
/// projection, and nothing else.
pub open spec fn columns_extended<F: Field>(
    oracles: Seq<MultilinearPolyOracle<F>>,
    columns: Seq<Option<Vec<F>>>,
    after: Seq<Option<Vec<F>>>,
    claims: Seq<ClaimSpec<F>>,
    n: nat,
) -> bool {
    &&& forall|id: OracleId|
        id < oracles.len() ==> #[trigger] column_of(after, id) == column_of(columns, id)
    &&& forall|i: int|
        0 <= i < n ==> ((#[trigger] meta_of(oracles, claims, i)).projected_id matches Some(pid)
            ==> column_of(after, pid) == Some(projected_column(oracles, columns, claims[i])))
    &&& forall|id: OracleId|
        id >= oracles.len() && (#[trigger] column_of(after, id)) is Some ==> exists|i: int|
            0 <= i < n && (#[trigger] meta_of(oracles, claims, i)).projected_id == Some(id)
}

/// The oracles of later claims are added at later positions, all of them
/// behind the oracles that were there before.
pub proof fn lemma_base_of_grows<F>(
    oracles: Seq<MultilinearPolyOracle<F>>,
    claims: Seq<ClaimSpec<F>>,
    i: nat,
    j: nat,
)
    requires
        i <= j,
    ensures
        oracles.len() <= base_of(oracles, claims, i),
        base_of(oracles, claims, i) + (j - i) <= base_of(oracles, claims, j),
    decreases j,
{
    if j > i {
        lemma_base_of_grows(oracles, claims, i, (j - 1) as nat);
    } else if i > 0 {
        lemma_base_of_grows(oracles, claims, (i - 1) as nat, (i - 1) as nat);
    }
}

} // verus!
