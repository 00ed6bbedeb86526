use vstd::prelude::*;
use crate::oracle::{OracleError, OracleId};

verus! {

/// A failure of the witness store.
#[derive(Clone, Copy, Debug, PartialEq, Eq, Structural)]
pub enum WitnessError {
    /// The store holds no column for the oracle.
    MissingWitness { id: OracleId },
}

/// A failure of the evalcheck prover.
#[derive(Clone, Copy, Debug, PartialEq, Eq, Structural)]
pub enum Error {
    /// The tensor expansion of a point was asked for before it was memoized.
    MissingQuery,
    /// The witness store failed.
    Witness(WitnessError),
    /// An oracle could not be built or used.
    Oracle(OracleError),
}

/// A reason for which a verifier rejects.
#[derive(Clone, Copy, Debug, PartialEq, Eq, Structural)]
pub enum VerificationError {
    /// The proof does not hold one round per variable.
    NumberOfRounds,
    /// A proof has not the form that its oracle asks for.
    SubproofMismatch,
    /// The value of a claim does not follow from the values of its
    /// children.
    IncorrectEvaluation,
}

} // verus!
