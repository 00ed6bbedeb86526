//! A verified evalcheck reduction engine.
//!
//! An evalcheck claim says that a multilinear polynomial, given by an oracle
//! in a graph of oracles, has a certain value at a certain point. The engine
//! reduces such claims along the structure of their oracles to claims on
//! committed polynomials, which a commitment scheme opens, and to sumcheck
//! instances for the claims on shifted and packed polynomials.

/// Expressions over numbered variables, as constraints are made of.
pub mod arith_expr;
/// Gadgets for arithmetic on words.
pub mod arithmetic;
/// The operations of field arithmetic, each as a trait of its own.
pub mod arithmetic_traits;
/// The binary fields with two and with four elements.
pub mod binary_field;
/// The gadgets of the bitwise operations.
pub mod bitwise;
/// The builder of constraint systems.
pub mod builder;
/// The collection phase: which claims a walk through the oracles hands on.
pub mod collection;
/// The completion phase: the proofs of the pending claims.
pub mod completion;
/// Constraint systems and their serialized proofs.
pub mod constraint_system;
/// The depth of oracles in shifted and packed oracles.
pub mod depth;
/// The errors of the library.
pub mod error;
/// The write-once table keyed by oracle and evaluation point.
pub mod eval_point_map;
/// Evalcheck claims and proofs.
pub mod evalcheck;
/// Fields.
pub mod field;
/// The greedy evalcheck, which alternates evalcheck and sumcheck.
pub mod greedy_evalcheck;
/// What holds of the reduction of claims.
pub mod laws;
/// The measure by which the reduction terminates.
pub mod measure;
/// Multilinear polynomials: tensor expansion and evaluation.
pub mod multilinear;
/// What holds of the evaluation of multilinear polynomials.
pub mod multilinear_laws;
/// The oracles and their set.
pub mod oracle;
/// The evalcheck prover.
pub mod prove;
/// The reduction rule and the invariant of the engine.
pub mod reduction;
/// The round trip from the prover to the verifier.
pub mod round_trip;
/// The steps of the engine: draining the queue and valuing keys.
pub mod rounds;
/// The polynomials that oracles stand for.
pub mod semantics;
/// Sumcheck instances for claims on shifted and packed oracles.
pub mod subclaims;
/// Sumcheck claims, constraints and the verification of sumcheck proofs.
pub mod sumcheck;
/// The bytes of proofs.
pub mod transcript;
/// Gadgets for transparent polynomials.
pub mod transparent;
/// The gadget of the Fibonacci sequence of 32-bit words.
pub mod u32fib;
/// The evalcheck verifier.
pub mod verify;
/// The witness store and the memoized queries.
pub mod witness;
/// Columns of bits and the words that they hold.
pub mod words;
