use vstd::prelude::*;
use vstd::arithmetic::power2::pow2;
use rayon::iter::{IndexedParallelIterator, IntoParallelRefIterator, ParallelIterator};
use crate::arith_expr::ArithExpr;
use crate::builder::{log_rows_spec, names_view, ConstraintSystemBuilder};
use crate::error::{Error, WitnessError};
use crate::field::Field;
use crate::oracle::{oracle_fits, terms_fit, MultilinearPolyOracle, OracleId, OracleVariant};
use crate::witness::{column_of, witness_fits};

verus! {

/// The operations on bits that the gadgets of this module compute.
#[derive(Clone, Copy, Debug, PartialEq, Eq, Structural)]
pub enum BitwiseOp {
    And,
    Xor,
    Or,
}

/// The operation as arithmetic in the field: on the values zero and one,
/// the product is the conjunction, the sum is the exclusive disjunction in
/// a field of characteristic two, and the sum plus the product is the
/// disjunction.
pub open spec fn combine_spec<F: Field>(op: BitwiseOp, x: F, y: F) -> F {
    match op {
        BitwiseOp::And => x.mul_spec(y),
        BitwiseOp::Xor => x.add_spec(y),
        BitwiseOp::Or => x.add_spec(y).add_spec(x.mul_spec(y)),
    }
}

/// Computes the operation on two field elements.
pub fn combine<F: Field>(op: BitwiseOp, x: F, y: F) -> (z: F)
    ensures
        z == combine_spec(op, x, y),
{
    match op {
        BitwiseOp::And => x.mul(y),
        BitwiseOp::Xor => x.add(y),
        BitwiseOp::Or => x.add(y).add(x.mul(y)),
    }
}

/// The column that holds the operation on the rows of two columns.
pub open spec fn combined_column<F: Field>(op: BitwiseOp, xs: Seq<F>, ys: Seq<F>) -> Seq<F> {
    Seq::new(xs.len(), |i: int| combine_spec(op, xs[i], ys[i]))
}

/// Computes the operation row by row, the rows shared out among the
/// threads of the pool.
///
/// Wraps `par_iter`, `zip`, `map` and `collect` of rayon, which pair the
/// rows of the two columns, hand each pair to [`combine`] and collect the
/// results in the order of the rows.
#[verifier::external_body]
fn combine_columns_par<F: Field>(op: BitwiseOp, xs: &Vec<F>, ys: &Vec<F>) -> (zs: Vec<F>)
    requires
        xs@.len() == ys@.len(),
    ensures
        zs@ == combined_column(op, xs@, ys@),
{
    xs.par_iter().zip(ys.par_iter()).map(|(x, y)| combine(op, *x, *y)).collect()
}

/// The composition that the gadget of `op` asserts to be zero on the
/// inputs `x`, `y` and the output `z`: `x * y - z` for the conjunction and
/// `(x + y) + x * y - z` for the disjunction.
pub open spec fn asserted_expr<F: Field>(op: BitwiseOp) -> ArithExpr<F> {
    let x = ArithExpr::<F>::Var(0);
    let y = ArithExpr::<F>::Var(1);
    let z = ArithExpr::<F>::Var(2);
    let xy = ArithExpr::Mul(Box::new(x), Box::new(y));
    match op {
        BitwiseOp::Or => ArithExpr::Sub(
            Box::new(
                ArithExpr::Add(Box::new(ArithExpr::Add(Box::new(x), Box::new(y))), Box::new(xy)),
            ),
            Box::new(z),
        ),
        _ => ArithExpr::Sub(Box::new(xy), Box::new(z)),
    }
}

/// Builds the composition that the gadget of `op` asserts to be zero.
fn build_asserted_expr<F: Field>(op: BitwiseOp) -> (e: ArithExpr<F>)
    ensures
        e == asserted_expr::<F>(op),
{
    let xy = ArithExpr::var(0).times(ArithExpr::var(1));
    match op {
        BitwiseOp::Or => ArithExpr::var(0).plus(ArithExpr::var(1)).plus(xy).minus(
            ArithExpr::var(2),
        ),
        _ => xy.minus(ArithExpr::var(2)),
    }
}

/// The output that a gadget computes satisfies the constraint that it
/// asserts: on any row, the composition of the conjunction or of the
/// disjunction is zero where the output is the operation on the inputs.
pub proof fn lemma_output_satisfies_constraint<F: Field>(op: BitwiseOp, x: F, y: F)
    requires
        op != BitwiseOp::Xor,
    ensures
        asserted_expr::<F>(op).value(seq![x, y, combine_spec(op, x, y)]) == F::zero(),
{
    let z = combine_spec(op, x, y);
    let vars = seq![x, y, z];
    assert(vars[0] == x && vars[1] == y && vars[2] == z);
    F::lemma_add_laws(F::zero(), z, z);
    F::lemma_add_laws(z, F::zero(), z);
    assert(F::zero().add_spec(z) == z);
    assert(z.sub_spec(z) == F::zero());
    reveal_with_fuel(ArithExpr::value, 5);
}

/// What a gadget leaves of the witness: the column of the output holds
/// the operation on the rows of the inputs, and every other column is as
/// it was.
pub open spec fn witness_filled<F: Field>(
    before: Seq<Option<Vec<F>>>,
    after: Seq<Option<Vec<F>>>,
    op: BitwiseOp,
    xin: OracleId,
    yin: OracleId,
    zout: OracleId,
) -> bool {
    &&& column_of(before, xin) is Some
    &&& column_of(before, yin) is Some
    &&& column_of(after, zout) == Some(
        combined_column(op, column_of(before, xin)->0, column_of(before, yin)->0),
    )
    &&& forall|other: OracleId|
        other != zout ==> #[trigger] column_of(after, other) == column_of(before, other)
}

/// The oracle that the gadget of `op` adds for its output over `n_vars`
/// variables: a committed one for the conjunction and the disjunction, the
/// sum of the inputs for the exclusive disjunction.
pub open spec fn is_output<F: Field>(
    oracle: MultilinearPolyOracle<F>,
    op: BitwiseOp,
    xin: OracleId,
    yin: OracleId,
    n_vars: usize,
) -> bool {
    &&& oracle.n_vars == n_vars
    &&& match op {
        BitwiseOp::Xor => {
            &&& oracle.variant matches OracleVariant::LinearCombination { offset, terms }
            &&& offset == F::zero()
            &&& terms@ == seq![(xin, F::one()), (yin, F::one())]
        },
        _ => oracle.variant is Committed,
    }
}

/// Why a gadget fails on given inputs, if it does: the inputs are no two
/// oracles of one arity, or a witness is built and holds no column for one
/// of them.
pub open spec fn gadget_failure<F: Field>(
    builder: ConstraintSystemBuilder<F>,
    xin: OracleId,
    yin: OracleId,
) -> Option<Error> {
    match log_rows_spec(builder.oracles.oracles@, xin, yin) {
        Err(e) => Some(e),
        Ok(n) => if builder.witness is None {
            None
        } else if column_of(builder.columns(), xin) is None {
            Some(Error::Witness(WitnessError::MissingWitness { id: xin }))
        } else if column_of(builder.columns(), yin) is None {
            Some(Error::Witness(WitnessError::MissingWitness { id: yin }))
        } else {
            None
        },
    }
}

/// What a gadget that succeeded has done: it has added the oracle of its
/// output, which it returns; it has filled the column of the output where
/// a witness is built; and, but for the exclusive disjunction, it has
/// asserted its constraint on the inputs and the output.
pub open spec fn gadget_done<F: Field>(
    before: ConstraintSystemBuilder<F>,
    after: ConstraintSystemBuilder<F>,
    op: BitwiseOp,
    xin: OracleId,
    yin: OracleId,
    zout: OracleId,
) -> bool {
    let n = before.oracles.oracles@.len();
    &&& zout == n
    &&& after.oracles.oracles@.len() == n + 1
    &&& after.oracles.oracles@.take(n as int) == before.oracles.oracles@
    &&& is_output(
        after.oracles.oracles@[n as int],
        op,
        xin,
        yin,
        before.oracles.oracles@[xin as int].n_vars,
    )
    &&& after.witness is Some == before.witness is Some
    &&& before.witness is Some ==> witness_filled(
        before.columns(),
        after.columns(),
        op,
        xin,
        yin,
        zout,
    )
    &&& names_view(after.namespace@) == names_view(before.namespace@)
    &&& if op == BitwiseOp::Xor {
        after.constraints == before.constraints
    } else {
        &&& after.constraints@.len() == before.constraints@.len() + 1
        &&& after.constraints@.take(before.constraints@.len() as int) == before.constraints@
        &&& after.constraints@.last().oracle_ids@ == seq![xin, yin, zout]
        &&& after.constraints@.last().composition == asserted_expr::<F>(op)
    }
}

/// Fills the column of the output of a gadget, where a witness is built.
fn fill_output<F: Field>(
    builder: &mut ConstraintSystemBuilder<F>,
    op: BitwiseOp,
    xin: OracleId,
    yin: OracleId,
    zout: OracleId,
    Ghost(before): Ghost<Seq<Option<Vec<F>>>>,
) -> (r: Result<(), Error>)
    requires
        old(builder).oracles.wf(),
        before == old(builder).columns(),
        xin < zout,
        yin < zout,
        zout + 1 == old(builder).oracles.oracles@.len(),
        old(builder).oracles.oracles@[xin as int].n_vars == old(builder).oracles.oracles@[zout as int].n_vars,
        old(builder).oracles.oracles@[yin as int].n_vars == old(builder).oracles.oracles@[zout as int].n_vars,
        old(builder).witness is Some ==> witness_fits(
            old(builder).oracles.oracles@.take(zout as int),
            before,
        ),
    ensures
        final(builder).oracles == old(builder).oracles,
        final(builder).constraints == old(builder).constraints,
        final(builder).namespace == old(builder).namespace,
        final(builder).witness is Some == old(builder).witness is Some,
        match r {
            Ok(()) => {
                &&& final(builder).wf()
                &&& old(builder).witness is Some ==> witness_filled(
                    before,
                    final(builder).columns(),
                    op,
                    xin,
                    yin,
                    zout,
                )
            },
            Err(e) => old(builder).witness is Some && if column_of(before, xin) is None {
                e == Error::Witness(WitnessError::MissingWitness { id: xin })
            } else {
                column_of(before, yin) is None && e == Error::Witness(
                    WitnessError::MissingWitness { id: yin },
                )
            },
        },
{
    let ghost oracles = builder.oracles.oracles@;
    match &mut builder.witness {
        Some(witness) => {
            let zs = {
                let xs = match witness.get_multilin_poly(xin) {
                    Ok(xs) => xs,
                    Err(e) => {
                        return Err(Error::Witness(e));
                    },
                };
                let ys = match witness.get_multilin_poly(yin) {
                    Ok(ys) => ys,
                    Err(e) => {
                        return Err(Error::Witness(e));
                    },
                };
                proof {
                    assert(oracles.take(zout as int)[xin as int] == oracles[xin as int]);
                    assert(oracles.take(zout as int)[yin as int] == oracles[yin as int]);
                }
                combine_columns_par(op, xs, ys)
            };
            witness.update_multilin_poly(zout, zs);
            proof {
                let after = witness.columns@;
                assert forall|id: OracleId| (#[trigger] column_of(after, id)) is Some implies id
                    < oracles.len() && column_of(after, id)->0.len() == pow2(
                    oracles[id as int].n_vars as nat,
                ) by {
                    if id != zout {
                        assert(column_of(after, id) == column_of(before, id));
                        assert(oracles.take(zout as int)[id as int] == oracles[id as int]);
                    } else {
                        assert(oracles.take(zout as int)[xin as int] == oracles[xin as int]);
                    }
                }
            }
            Ok(())
        },
        None => Ok(()),
    }
}

/// The gadget of an operation.
fn bitwise_gadget<F: Field>(
    builder: &mut ConstraintSystemBuilder<F>,
    name: &str,
    op: BitwiseOp,
    xin: OracleId,
    yin: OracleId,
) -> (r: Result<OracleId, Error>)
    requires
        old(builder).wf(),
    ensures
        match r {
            Ok(zout) => final(builder).wf() && gadget_failure(*old(builder), xin, yin) is None
                && gadget_done(*old(builder), *final(builder), op, xin, yin, zout),
            Err(e) => gadget_failure(*old(builder), xin, yin) == Some(e),
        },
{
    let ghost start = *builder;
    let ghost before = builder.columns();
    builder.push_namespace(name);
    let log_rows = match builder.log_rows(xin, yin) {
        Ok(log_rows) => log_rows,
        Err(e) => {
            return Err(e);
        },
    };
    proof {
        assert(oracle_fits(start.oracles.oracles@, xin as int));
    }
    let added = match op {
        BitwiseOp::Xor => {
            let mut terms: Vec<(OracleId, F)> = Vec::new();
            terms.push((xin, F::one_value()));
            terms.push((yin, F::one_value()));
            proof {
                assert(terms@ =~= seq![(xin, F::one()), (yin, F::one())]);
                let oracle = MultilinearPolyOracle {
                    n_vars: log_rows,
                    variant: OracleVariant::LinearCombination { offset: F::zero(), terms },
                };
                let next = start.oracles.oracles@.push(oracle);
                assert(next[start.oracles.oracles@.len() as int] == oracle);
                assert(next[xin as int] == start.oracles.oracles@[xin as int]);
                assert(next[yin as int] == start.oracles.oracles@[yin as int]);
                assert(terms_fit(
                    next,
                    terms@,
                    start.oracles.oracles@.len() as int,
                    log_rows as int,
                ));
            }
            builder.oracles.add_linear_combination(log_rows, terms)
        },
        _ => builder.oracles.add_committed(log_rows),
    };
    let zout = match added {
        Ok(zout) => zout,
        Err(e) => {
            return Err(Error::Oracle(e));
        },
    };
    proof {
        let grown = builder.oracles.oracles@;
        assert(start.oracles.oracles.len() == start.oracles.oracles@.len());
        assert(zout == start.oracles.oracles@.len());
        assert(grown.take(zout as int) =~= start.oracles.oracles@);
        assert(grown[xin as int] == start.oracles.oracles@[xin as int]);
        assert(grown[yin as int] == start.oracles.oracles@[yin as int]);
    }
    match fill_output(builder, op, xin, yin, zout, Ghost(before)) {
        Ok(()) => {},
        Err(e) => {
            return Err(e);
        },
    }
    match op {
        BitwiseOp::Xor => {},
        _ => {
            let mut ids: Vec<OracleId> = Vec::new();
            ids.push(xin);
            ids.push(yin);
            ids.push(zout);
            assert(ids@ =~= seq![xin, yin, zout]);
            let label = match op {
                BitwiseOp::And => "bitwise_and",
                _ => "bitwise_or",
            };
            builder.assert_zero(label, ids, build_asserted_expr(op));
        },
    }
    builder.pop_namespace();
    proof {
        assert(names_view(start.namespace@).push(name@).drop_last() =~= names_view(
            start.namespace@,
        ));
    }
    Ok(zout)
}

/// The gadget of the conjunction: adds a committed oracle for the output,
/// fills its column with the products of the rows where a witness is
/// built, and asserts that `x * y - z` is zero.
pub fn and<F: Field>(
    builder: &mut ConstraintSystemBuilder<F>,
    name: &str,
    xin: OracleId,
    yin: OracleId,
) -> (r: Result<OracleId, Error>)
    requires
        old(builder).wf(),
    ensures
        match r {
            Ok(zout) => final(builder).wf() && gadget_failure(*old(builder), xin, yin) is None
                && gadget_done(*old(builder), *final(builder), BitwiseOp::And, xin, yin, zout),
            Err(e) => gadget_failure(*old(builder), xin, yin) == Some(e),
        },
{
    bitwise_gadget(builder, name, BitwiseOp::And, xin, yin)
}

/// The gadget of the exclusive disjunction: adds the sum of the inputs as
/// the oracle of the output, and fills its column with the sums of the
/// rows where a witness is built.
pub fn xor<F: Field>(
    builder: &mut ConstraintSystemBuilder<F>,
    name: &str,
    xin: OracleId,
    yin: OracleId,
) -> (r: Result<OracleId, Error>)
    requires
        old(builder).wf(),
    ensures
        match r {
            Ok(zout) => final(builder).wf() && gadget_failure(*old(builder), xin, yin) is None
                && gadget_done(*old(builder), *final(builder), BitwiseOp::Xor, xin, yin, zout),
            Err(e) => gadget_failure(*old(builder), xin, yin) == Some(e),
        },
{
    bitwise_gadget(builder, name, BitwiseOp::Xor, xin, yin)
}

/// The gadget of the disjunction: adds a committed oracle for the output,
/// fills its column with the sums plus the products of the rows where a
/// witness is built, and asserts that `(x + y) + x * y - z` is zero.
pub fn or<F: Field>(
    builder: &mut ConstraintSystemBuilder<F>,
    name: &str,
    xin: OracleId,
    yin: OracleId,
) -> (r: Result<OracleId, Error>)
    requires
        old(builder).wf(),
    ensures
        match r {
            Ok(zout) => final(builder).wf() && gadget_failure(*old(builder), xin, yin) is None
                && gadget_done(*old(builder), *final(builder), BitwiseOp::Or, xin, yin, zout),
            Err(e) => gadget_failure(*old(builder), xin, yin) == Some(e),
        },
{
    bitwise_gadget(builder, name, BitwiseOp::Or, xin, yin)
}

} // verus!
