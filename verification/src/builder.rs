use vstd::prelude::*;
use crate::arith_expr::ArithExpr;
use crate::error::{Error, WitnessError};
use crate::evalcheck::clone_point;
use crate::field::Field;
use crate::oracle::{
    fit_error, oracle_fits, MultilinearOracleSet, MultilinearPolyOracle, OracleError, OracleId,
};
use crate::witness::{column_of, witness_fits, MultilinearExtensionIndex};

verus! {

/// The constraint that a composition of oracles is zero on the hypercube.
pub struct ZeroConstraint<F> {
    /// The name of the constraint.
    pub name: String,
    /// The oracles that stand for the variables of the composition.
    pub oracle_ids: Vec<OracleId>,
    /// The composition.
    pub composition: ArithExpr<F>,
}

/// Builds a constraint system gadget by gadget: the oracles, the
/// constraints on them and, where a witness is asked for, their columns.
pub struct ConstraintSystemBuilder<F> {
    pub oracles: MultilinearOracleSet<F>,
    pub witness: Option<MultilinearExtensionIndex<F>>,
    pub constraints: Vec<ZeroConstraint<F>>,
    pub namespace: Vec<String>,
}

/// The names of the namespaces, the outermost first.
pub open spec fn names_view(namespace: Seq<String>) -> Seq<Seq<char>> {
    Seq::new(namespace.len(), |i: int| namespace[i]@)
}

impl<F: Field> ConstraintSystemBuilder<F> {
    /// What the gadgets keep: the oracle set is well formed, and the
    /// witness, where one is built, fits it.
    pub open spec fn wf(&self) -> bool {
        &&& self.oracles.wf()
        &&& self.witness is Some ==> witness_fits(
            self.oracles.oracles@,
            self.columns(),
        )
    }

    /// The columns of the witness, or none where no witness is built.
    pub open spec fn columns(&self) -> Seq<Option<Vec<F>>> {
        match self.witness {
            Some(witness) => witness.columns@,
            None => Seq::empty(),
        }
    }

    /// A builder that builds no witness.
    pub fn new() -> (builder: Self)
        ensures
            builder.wf(),
            builder.oracles.oracles@.len() == 0,
            builder.witness is None,
            builder.constraints@.len() == 0,
            builder.namespace@.len() == 0,
    {
        ConstraintSystemBuilder {
            oracles: MultilinearOracleSet::new(),
            witness: None,
            constraints: Vec::new(),
            namespace: Vec::new(),
        }
    }

    /// A builder that builds the witness along with the constraints.
    pub fn new_with_witness() -> (builder: Self)
        ensures
            builder.wf(),
            builder.oracles.oracles@.len() == 0,
            builder.witness is Some,
            builder.columns().len() == 0,
            builder.constraints@.len() == 0,
            builder.namespace@.len() == 0,
    {
        ConstraintSystemBuilder {
            oracles: MultilinearOracleSet::new(),
            witness: Some(MultilinearExtensionIndex::new()),
            constraints: Vec::new(),
            namespace: Vec::new(),
        }
    }

    /// Enters a namespace.
    pub fn push_namespace(&mut self, name: &str)
        ensures
            final(self).oracles == old(self).oracles,
            final(self).witness == old(self).witness,
            final(self).constraints == old(self).constraints,
            names_view(final(self).namespace@) == names_view(old(self).namespace@).push(name@),
    {
        self.namespace.push(name.to_owned());
        assert(names_view(self.namespace@) =~= names_view(old(self).namespace@).push(name@));
    }

    /// Leaves the innermost namespace, if there is one.
    pub fn pop_namespace(&mut self)
        ensures
            final(self).oracles == old(self).oracles,
            final(self).witness == old(self).witness,
            final(self).constraints == old(self).constraints,
            old(self).namespace@.len() > 0 ==> names_view(final(self).namespace@) == names_view(
                old(self).namespace@,
            ).drop_last(),
            old(self).namespace@.len() == 0 ==> final(self).namespace@.len() == 0,
    {
        let _ = self.namespace.pop();
        proof {
            if old(self).namespace@.len() > 0 {
                assert(names_view(self.namespace@) =~= names_view(
                    old(self).namespace@,
                ).drop_last());
            }
        }
    }

    /// The number of variables that the two oracles share. Fails with
    /// `InvalidOracleId` where one of them is unknown, and else with
    /// `IncorrectNumberOfVariables` where they differ in arity.
    pub fn log_rows(&self, xin: OracleId, yin: OracleId) -> (r: Result<usize, Error>)
        ensures
            r == log_rows_spec(self.oracles.oracles@, xin, yin),
    {
        if xin >= self.oracles.size() || yin >= self.oracles.size() {
            return Err(Error::Oracle(OracleError::InvalidOracleId));
        }
        let n_vars = self.oracles.n_vars(xin);
        if self.oracles.n_vars(yin) != n_vars {
            return Err(Error::Oracle(OracleError::IncorrectNumberOfVariables));
        }
        Ok(n_vars)
    }

    /// Adds an oracle that fits the set and returns its id.
    pub fn add_oracle(&mut self, oracle: MultilinearPolyOracle<F>) -> (r: Result<OracleId, Error>)
        requires
            old(self).wf(),
        ensures
            final(self).wf(),
            final(self).witness == old(self).witness,
            final(self).constraints == old(self).constraints,
            final(self).namespace == old(self).namespace,
            match r {
                Ok(id) => id == old(self).oracles.oracles@.len() && final(self).oracles.oracles@
                    == old(self).oracles.oracles@.push(oracle) && oracle_fits(
                    final(self).oracles.oracles@,
                    id as int,
                ),
                Err(e) => final(self).oracles.oracles@ == old(self).oracles.oracles@
                    && !oracle_fits(
                    old(self).oracles.oracles@.push(oracle),
                    old(self).oracles.oracles@.len() as int,
                ) && e == Error::Oracle(
                    fit_error(old(self).oracles.oracles@, oracle),
                ),
            },
    {
        let ghost before = self.oracles.oracles@;
        proof {
            assert(self.oracles.oracles.len() == before.len());
        }
        match self.oracles.add(oracle) {
            Ok(id) => {
                proof {
                    let after = self.oracles.oracles@;
                    if self.witness is Some {
                        assert forall|other: OracleId|
                            (#[trigger] column_of(self.columns(), other)) is Some implies other
                            < after.len() && column_of(self.columns(), other)->0.len()
                            == vstd::arithmetic::power2::pow2(after[other as int].n_vars as nat) by {
                            assert(after[other as int] == before[other as int]);
                        }
                    }
                }
                Ok(id)
            },
            Err(e) => Err(Error::Oracle(e)),
        }
    }

    /// Stores `column` as the witness of the oracle `id`, where a witness
    /// is built; the other columns stay as they are.
    pub fn set_column(&mut self, id: OracleId, column: Vec<F>)
        requires
            old(self).wf(),
            id < old(self).oracles.oracles@.len(),
            column@.len() == vstd::arithmetic::power2::pow2(
                old(self).oracles.oracles@[id as int].n_vars as nat,
            ),
        ensures
            final(self).wf(),
            final(self).oracles == old(self).oracles,
            final(self).constraints == old(self).constraints,
            final(self).namespace == old(self).namespace,
            final(self).witness is Some == old(self).witness is Some,
            old(self).witness is Some ==> column_of(final(self).columns(), id) == Some(column@)
                && forall|other: OracleId|
                other != id ==> #[trigger] column_of(final(self).columns(), other) == column_of(
                    old(self).columns(),
                    other,
                ),
    {
        match &mut self.witness {
            Some(witness) => {
                witness.update_multilin_poly(id, column);
            },
            None => {},
        }
    }

    /// A copy of the column of the oracle `id`. Fails with
    /// `MissingWitness` exactly where a witness is built that holds none.
    /// Where no witness is built there is no column to copy.
    pub fn column(&self, id: OracleId) -> (r: Result<Option<Vec<F>>, Error>)
        ensures
            match r {
                Ok(Some(column)) => self.witness is Some && column_of(self.columns(), id) == Some(
                    column@,
                ),
                Ok(None) => self.witness is None,
                Err(e) => self.witness is Some && column_of(self.columns(), id) is None && e
                    == Error::Witness(WitnessError::MissingWitness { id }),
            },
    {
        match &self.witness {
            Some(witness) => match witness.get_multilin_poly(id) {
                Ok(column) => Ok(Some(clone_point(column))),
                Err(e) => Err(Error::Witness(e)),
            },
            None => Ok(None),
        }
    }

    /// Adds the constraint that `composition` of the oracles is zero.
    pub fn assert_zero(&mut self, name: &str, oracle_ids: Vec<OracleId>, composition: ArithExpr<F>)
        ensures
            final(self).oracles == old(self).oracles,
            final(self).witness == old(self).witness,
            final(self).namespace == old(self).namespace,
            final(self).constraints@.len() == old(self).constraints@.len() + 1,
            final(self).constraints@.take(old(self).constraints@.len() as int) == old(
                self,
            ).constraints@,
            final(self).constraints@.last().name@ == name@,
            final(self).constraints@.last().oracle_ids == oracle_ids,
            final(self).constraints@.last().composition == composition,
    {
        self.constraints.push(ZeroConstraint { name: name.to_owned(), oracle_ids, composition });
        assert(self.constraints@.take(old(self).constraints@.len() as int) =~= old(
            self,
        ).constraints@);
    }
}

/// The number of variables that two oracles share, or why there is none.
pub open spec fn log_rows_spec<F>(
    oracles: Seq<MultilinearPolyOracle<F>>,
    xin: OracleId,
    yin: OracleId,
) -> Result<usize, Error> {
    if xin >= oracles.len() || yin >= oracles.len() {
        Err(Error::Oracle(OracleError::InvalidOracleId))
    } else if oracles[xin as int].n_vars != oracles[yin as int].n_vars {
        Err(Error::Oracle(OracleError::IncorrectNumberOfVariables))
    } else {
        Ok(oracles[xin as int].n_vars)
    }
}

} // verus!
