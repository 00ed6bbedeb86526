use vstd::prelude::*;
use vstd::arithmetic::power2::pow2;
use crate::builder::ConstraintSystemBuilder;
use crate::error::Error;
use crate::field::Field;
use crate::oracle::{
    MultilinearPolyOracle, OracleError, OracleId, OracleVariant, TransparentPoly, MAX_N_VARS,
};
use crate::witness::{column_of, power_of_two};

verus! {

/// The column of `len` rows that holds one before row `index` and zero
/// from there on.
pub open spec fn step_column<F: Field>(index: nat, len: nat) -> Seq<F> {
    Seq::new(len, |i: int| if i < index { F::one() } else { F::zero() })
}

/// The oracle of the step-down polynomial.
pub open spec fn step_down_oracle<F>(log_size: usize, index: usize) -> MultilinearPolyOracle<F> {
    MultilinearPolyOracle {
        n_vars: log_size,
        variant: OracleVariant::Transparent { poly: TransparentPoly::StepDown { index } },
    }
}

/// Adds the transparent step-down polynomial of `log_size` variables: one
/// on the first `index` vertices and zero on the others. Its column is
/// filled where a witness is built.
///
/// Fails with `TooManyVariables` where `log_size` is over the limit, and
/// else with `ArgumentRangeError` where the hypercube has fewer than
/// `index` vertices.
pub fn step_down<F: Field>(
    builder: &mut ConstraintSystemBuilder<F>,
    name: &str,
    log_size: usize,
    index: usize,
) -> (r: Result<OracleId, Error>)
    requires
        old(builder).wf(),
    ensures
        final(builder).wf(),
        final(builder).constraints == old(builder).constraints,
        final(builder).namespace == old(builder).namespace,
        final(builder).witness is Some == old(builder).witness is Some,
        match r {
            Ok(id) => {
                &&& log_size <= MAX_N_VARS
                &&& index <= pow2(log_size as nat)
                &&& id == old(builder).oracles.oracles@.len()
                &&& final(builder).oracles.oracles@ == old(builder).oracles.oracles@.push(
                    step_down_oracle(log_size, index),
                )
                &&& old(builder).witness is Some ==> column_of(final(builder).columns(), id)
                    == Some(step_column::<F>(index as nat, pow2(log_size as nat)))
                    && forall|other: OracleId|
                    other != id ==> #[trigger] column_of(final(builder).columns(), other)
                        == column_of(old(builder).columns(), other)
            },
            Err(e) => final(builder).oracles == old(builder).oracles && final(builder).witness
                == old(builder).witness && if log_size > MAX_N_VARS {
                e == Error::Oracle(OracleError::TooManyVariables)
            } else {
                index > pow2(log_size as nat) && e == Error::Oracle(
                    OracleError::ArgumentRangeError,
                )
            },
        },
{
    if log_size > MAX_N_VARS {
        return Err(Error::Oracle(OracleError::TooManyVariables));
    }
    let len = power_of_two(log_size);
    if index > len {
        return Err(Error::Oracle(OracleError::ArgumentRangeError));
    }
    let oracle = MultilinearPolyOracle {
        n_vars: log_size,
        variant: OracleVariant::Transparent { poly: TransparentPoly::StepDown { index } },
    };
    proof {
        let next = builder.oracles.oracles@.push(oracle);
        assert(next[builder.oracles.oracles@.len() as int] == oracle);
    }
    let id = match builder.add_oracle(oracle) {
        Ok(id) => id,
        Err(e) => {
            return Err(e);
        },
    };
    if builder.witness.is_some() {
        let mut column: Vec<F> = Vec::new();
        let mut i: usize = 0;
        while i < len
            invariant
                i <= len,
                column@ == step_column::<F>(index as nat, len as nat).take(i as int),
            decreases len - i,
        {
            let value = if i < index {
                F::one_value()
            } else {
                F::zero_value()
            };
            column.push(value);
            assert(column@ =~= step_column::<F>(index as nat, len as nat).take(i + 1));
            i += 1;
        }
        assert(step_column::<F>(index as nat, len as nat).take(len as int) =~= step_column::<F>(
            index as nat,
            len as nat,
        ));
        builder.set_column(id, column);
    }
    Ok(id)
}

} // verus!
