use vstd::prelude::*;
use vstd::bytes::{spec_u64_to_le_bytes, u64_to_le_bytes};
use crate::evalcheck::{EvalcheckProof, ProofSpec};
use crate::field::Field;
use crate::prove::proofs_view;

verus! {

/// Appends the eight bytes of `value`, the lowest first.
pub fn write_u64(out: &mut Vec<u8>, value: u64)
    ensures
        final(out)@ == old(out)@ + spec_u64_to_le_bytes(value),
{
    let bytes = u64_to_le_bytes(value);
    let mut i: usize = 0;
    while i < bytes.len()
        invariant
            i <= bytes@.len(),
            bytes@ == spec_u64_to_le_bytes(value),
            out@ == old(out)@ + bytes@.take(i as int),
        decreases bytes@.len() - i,
    {
        out.push(bytes[i]);
        assert(out@ =~= old(out)@ + bytes@.take(i + 1));
        i += 1;
    }
    assert(bytes@.take(bytes@.len() as int) =~= bytes@);
}

/// The bytes of a proof: the tag of its form, then what the form holds.
/// A repeating proof holds its subproof; a linear combination holds the
/// number of its subproofs and then each value with its subproof; a
/// zero-padded proof holds the inner value and the subproof.
pub open spec fn proof_bytes<F: Field>(tree: ProofSpec<F>) -> Seq<u8>
    decreases tree, 0nat,
{
    match tree {
        ProofSpec::Transparent => seq![1u8],
        ProofSpec::Committed => seq![2u8],
        ProofSpec::Shifted => seq![3u8],
        ProofSpec::Packed => seq![4u8],
        ProofSpec::Repeating(sub) => seq![5u8] + proof_bytes(*sub),
        ProofSpec::LinearCombination { subproofs } => seq![6u8] + spec_u64_to_le_bytes(
            subproofs.len() as u64,
        ) + entries_bytes(subproofs, subproofs.len()),
        ProofSpec::ZeroPadded(eval, sub) => seq![7u8] + eval.to_bytes_spec() + proof_bytes(*sub),
    }
}

/// The bytes of the first `n` entries of a linear combination: each value
/// followed by its subproof.
pub open spec fn entries_bytes<F: Field>(entries: Seq<(F, ProofSpec<F>)>, n: nat) -> Seq<u8>
    decreases entries, n,
{
    if n == 0 || n > entries.len() {
        Seq::empty()
    } else {
        entries_bytes(entries, (n - 1) as nat) + entries[n - 1].0.to_bytes_spec() + proof_bytes(
            entries[n - 1].1,
        )
    }
}

/// The bytes of the first `n` proofs, one after the other.
pub open spec fn proofs_bytes<F: Field>(proofs: Seq<ProofSpec<F>>, n: nat) -> Seq<u8>
    decreases n,
{
    if n == 0 {
        Seq::empty()
    } else {
        proofs_bytes(proofs, (n - 1) as nat) + proof_bytes(proofs[n - 1])
    }
}

/// Appends the bytes of a proof to the transcript.
#[verifier::loop_isolation(false)]
pub fn serialize_evalcheck_proof<F: Field>(transcript: &mut Vec<u8>, evalcheck_proof: &EvalcheckProof<F>)
    ensures
        final(transcript)@ == old(transcript)@ + proof_bytes(evalcheck_proof@),
    decreases evalcheck_proof,
{
    match evalcheck_proof {
        EvalcheckProof::Transparent => {
            transcript.push(1);
            assert(transcript@ =~= old(transcript)@ + seq![1u8]);
        },
        EvalcheckProof::Committed => {
            transcript.push(2);
            assert(transcript@ =~= old(transcript)@ + seq![2u8]);
        },
        EvalcheckProof::Shifted => {
            transcript.push(3);
            assert(transcript@ =~= old(transcript)@ + seq![3u8]);
        },
        EvalcheckProof::Packed => {
            transcript.push(4);
            assert(transcript@ =~= old(transcript)@ + seq![4u8]);
        },
        EvalcheckProof::Repeating(subproof) => {
            transcript.push(5);
            serialize_evalcheck_proof(transcript, subproof);
            assert(transcript@ =~= old(transcript)@ + (seq![5u8] + proof_bytes(subproof@)));
        },
        EvalcheckProof::LinearCombination { subproofs } => {
            transcript.push(6);
            write_u64(transcript, subproofs.len() as u64);
            let ghost entries = evalcheck_proof@->subproofs;
            let ghost head = old(transcript)@ + seq![6u8] + spec_u64_to_le_bytes(
                subproofs.len() as u64,
            );
            assert(transcript@ =~= head + entries_bytes(entries, 0));
            let mut i: usize = 0;
            while i < subproofs.len()
                invariant
                    i <= subproofs@.len(),
                    entries.len() == subproofs@.len(),
                    transcript@ == head + entries_bytes(entries, i as nat),
                decreases subproofs@.len() - i,
            {
                proof {
                    vstd::std_specs::vec::axiom_vec_index_decreases(*subproofs, i as int);
                    assert(entries[i as int] == (subproofs@[i as int].0, subproofs@[i as int].1@));
                }
                subproofs[i].0.write_bytes(transcript);
                serialize_evalcheck_proof(transcript, &subproofs[i].1);
                assert(transcript@ =~= head + entries_bytes(entries, (i + 1) as nat));
                i += 1;
            }
            assert(transcript@ =~= old(transcript)@ + proof_bytes(evalcheck_proof@));
        },
        EvalcheckProof::ZeroPadded(eval, subproof) => {
            transcript.push(7);
            eval.write_bytes(transcript);
            serialize_evalcheck_proof(transcript, subproof);
            assert(transcript@ =~= old(transcript)@ + (seq![7u8] + eval.to_bytes_spec()
                + proof_bytes(subproof@)));
        },
    }
}

/// Appends the bytes of the proofs to the transcript, one after the other.
pub fn serialize_evalcheck_proofs<F: Field>(transcript: &mut Vec<u8>, proofs: &Vec<EvalcheckProof<F>>)
    ensures
        final(transcript)@ == old(transcript)@ + proofs_bytes(
            proofs_view(proofs@),
            proofs@.len(),
        ),
{
    let ghost trees = proofs_view(proofs@);
    assert(transcript@ =~= old(transcript)@ + proofs_bytes(trees, 0));
    let mut i: usize = 0;
    while i < proofs.len()
        invariant
            i <= proofs@.len(),
            trees == proofs_view(proofs@),
            transcript@ == old(transcript)@ + proofs_bytes(trees, i as nat),
        decreases proofs@.len() - i,
    {
        serialize_evalcheck_proof(transcript, &proofs[i]);
        assert(transcript@ =~= old(transcript)@ + proofs_bytes(trees, (i + 1) as nat));
        i += 1;
    }
}

} // verus!
