use evalcheck::constraint_system::Proof;

#[test]
fn proof_size_counts_both_streams() {
    let proof = Proof { transcript: vec![1, 2, 3], advice: vec![4, 5] };
    assert_eq!(proof.get_proof_size(), 5);
}

#[test]
fn proof_size_of_empty_proof_is_zero() {
    let proof = Proof { transcript: vec![], advice: vec![] };
    assert_eq!(proof.get_proof_size(), 0);
}
