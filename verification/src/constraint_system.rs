use vstd::prelude::*;
use crate::oracle::{MultilinearOracleSet, OracleId};
use crate::sumcheck::ConstraintSet;

verus! {

/// Identifies a channel.
pub type ChannelId = usize;

/// Whether a flush pushes values to a channel or pulls them from it.
#[derive(Debug, Clone, Copy, PartialEq, Eq, Structural)]
pub enum FlushDirection {
    Push,
    Pull,
}

/// A flush of the rows of some oracles to or from a channel.
pub struct Flush {
    pub oracles: Vec<OracleId>,
    pub channel_id: ChannelId,
    pub direction: FlushDirection,
    pub count: usize,
}

/// Contains the three things that place constraints on witness data:
/// virtual oracles, polynomial constraints and channel flushes.
pub struct ConstraintSystem<F> {
    pub oracles: MultilinearOracleSet<F>,
    pub table_constraints: Vec<ConstraintSet<F>>,
    pub non_zero_oracle_ids: Vec<OracleId>,
    pub flushes: Vec<Flush>,
    pub max_channel_id: ChannelId,
}

impl<F> ConstraintSystem<F> {
    /// The same constraint system, every part of it as it was.
    pub fn no_base_constraints(self) -> (system: ConstraintSystem<F>)
        ensures
            system.oracles == self.oracles,
            system.table_constraints == self.table_constraints,
            system.non_zero_oracle_ids == self.non_zero_oracle_ids,
            system.flushes == self.flushes,
            system.max_channel_id == self.max_channel_id,
    {
        ConstraintSystem {
            oracles: self.oracles,
            table_constraints: self.table_constraints,
            non_zero_oracle_ids: self.non_zero_oracle_ids,
            flushes: self.flushes,
            max_channel_id: self.max_channel_id,
        }
    }
}

/// A constraint-system proof in serialized form: the main transcript and the
/// advice stream that accompanies it.
#[derive(Debug, Clone)]
pub struct Proof {
    pub transcript: Vec<u8>,
    pub advice: Vec<u8>,
}

impl Proof {
    /// Total number of bytes in the proof, transcript and advice together.
    pub fn get_proof_size(&self) -> (size: usize)
        requires
            self.transcript@.len() + self.advice@.len() <= usize::MAX,
        ensures
            size == self.transcript@.len() + self.advice@.len(),
    {
        self.transcript.len() + self.advice.len()
    }
}

} // verus!
