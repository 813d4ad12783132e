use fuel_vm_core::merkle::{leaf_sum, merkle_prove, merkle_root, node_sum, verify};

const TEST_DATA: [&[u8]; 10] = [
    b"Frankly, my dear, I don't give a damn.",
    b"I'm going to make him an offer he can't refuse",
    b"Toto, I've got a feeling we're not in Kansas anymore.",
    b"Here's looking at you, kid.",
    b"Go ahead, make my day.",
    b"May the Force be with you.",
    b"You talking to me?",
    b"What we've got here is failure to communicate.",
    b"I love the smell of napalm in the morning.",
    b"The stuff that dreams are made of.",
];

fn leaves(range: std::ops::Range<usize>) -> Vec<Vec<u8>> {
    TEST_DATA[range].iter().map(|d| d.to_vec()).collect()
}

fn hex(bytes: &[u8]) -> String {
    bytes.iter().map(|b| format!("{:02x}", b)).collect()
}

#[test]
fn verify_returns_true_when_the_given_proof_set_matches_the_given_merkle_root() {
    const PROOF_INDEX: usize = 2;
    const LEAVES_COUNT: usize = 5;

    let data = leaves(0..LEAVES_COUNT);
    let (root, proof_set) = merkle_prove(&data, PROOF_INDEX as u64).unwrap();
    let verification = verify(
        &root,
        TEST_DATA[PROOF_INDEX],
        &proof_set,
        PROOF_INDEX as u64,
        LEAVES_COUNT as u64,
    )
    .unwrap();
    assert!(verification);
}

#[test]
fn verify_returns_false_when_the_given_proof_set_does_not_match_the_given_merkle_root() {
    const PROOF_INDEX: usize = 2;
    const LEAVES_COUNT: usize = 5;

    let data = leaves(0..LEAVES_COUNT - 1);
    let (root, _) = merkle_prove(&data, PROOF_INDEX as u64).unwrap();

    let data = leaves(5..10);
    let (_, set) = merkle_prove(&data, PROOF_INDEX as u64).unwrap();

    let verification = verify(
        &root,
        TEST_DATA[PROOF_INDEX],
        &set,
        PROOF_INDEX as u64,
        LEAVES_COUNT as u64,
    )
    .unwrap();
    assert!(!verification);
}

#[test]
fn verify_returns_false_when_the_proof_set_is_empty() {
    const PROOF_INDEX: usize = 0;
    const LEAVES_COUNT: usize = 0;

    let verification = verify(
        &[0u8; 32],
        TEST_DATA[PROOF_INDEX],
        &vec![],
        PROOF_INDEX as u64,
        LEAVES_COUNT as u64,
    )
    .unwrap();
    assert!(!verification);
}

#[test]
fn verify_returns_false_when_the_proof_index_is_invalid() {
    const PROOF_INDEX: usize = 0;
    const LEAVES_COUNT: usize = 5;

    let data = leaves(0..LEAVES_COUNT - 1);
    let (root, set) = merkle_prove(&data, PROOF_INDEX as u64).unwrap();

    let verification = verify(
        &root,
        TEST_DATA[PROOF_INDEX],
        &set,
        PROOF_INDEX as u64 + 15,
        LEAVES_COUNT as u64,
    )
    .unwrap();
    assert!(!verification);
}

#[test]
fn leaf_sum_hashes_the_prefixed_data() {
    // SHA-256 of the single byte 0x00.
    assert_eq!(
        hex(&leaf_sum(b"")),
        "6e340b9cffb37a989ca544e6bb780a2c78901d3fb33738768511a30617afa01d"
    );
}

#[test]
fn root_of_no_leaves_is_the_hash_of_nothing() {
    assert_eq!(
        hex(&merkle_root(&vec![])),
        "e3b0c44298fc1c149afbf4c8996fb92427ae41e4649b934ca495991b7852b855"
    );
}

#[test]
fn root_of_five_leaves_splits_at_four() {
    let data = leaves(0..5);
    let l: Vec<[u8; 32]> = data.iter().map(|d| leaf_sum(d)).collect();
    let left = node_sum(&node_sum(&l[0], &l[1]), &node_sum(&l[2], &l[3]));
    let expected = node_sum(&left, &l[4]);
    assert_eq!(merkle_root(&data), expected);
    assert_ne!(expected, l[4]);
}

#[test]
fn every_proof_of_every_small_tree_verifies() {
    for n in 1..=10usize {
        let data = leaves(0..n);
        for i in 0..n {
            let (root, proof) = merkle_prove(&data, i as u64).unwrap();
            assert_eq!(verify(&root, &data[i], &proof, i as u64, n as u64), Some(true));
        }
    }
}

#[test]
fn changing_any_byte_breaks_the_proof() {
    let data = leaves(0..7);
    let (root, proof) = merkle_prove(&data, 3).unwrap();
    for b in 0..32 {
        let mut bad_root = root;
        bad_root[b] ^= 1;
        assert_eq!(verify(&bad_root, &data[3], &proof, 3, 7), Some(false));
        for p in 0..proof.len() {
            let mut bad_proof = proof.clone();
            bad_proof[p][b] ^= 0x80;
            assert_eq!(verify(&root, &data[3], &bad_proof, 3, 7), Some(false));
        }
    }
    let mut bad_data = data[3].clone();
    bad_data[0] ^= 1;
    assert_eq!(verify(&root, &bad_data, &proof, 3, 7), Some(false));
}

#[test]
fn index_past_the_leaves_is_false() {
    let data = leaves(0..4);
    let (root, proof) = merkle_prove(&data, 1).unwrap();
    assert_eq!(verify(&root, &data[1], &proof, 4, 4), Some(false));
    assert_eq!(verify(&root, &data[1], &proof, u64::MAX, 4), Some(false));
}

#[test]
fn no_leaves_is_false_whatever_the_proof() {
    let data = leaves(0..2);
    let (root, proof) = merkle_prove(&data, 0).unwrap();
    assert_eq!(verify(&root, &data[0], &proof, 0, 0), Some(false));
}

#[test]
fn single_leaf_with_empty_proof_matches_its_hash() {
    let leaf = leaf_sum(TEST_DATA[0]);
    assert_eq!(verify(&leaf, TEST_DATA[0], &vec![], 0, 1), Some(true));
    assert_eq!(verify(&leaf, TEST_DATA[1], &vec![], 0, 1), Some(false));
    assert_eq!(merkle_root(&leaves(0..1)), leaf);
}

#[test]
fn proving_a_missing_leaf_gives_nothing() {
    assert!(merkle_prove(&leaves(0..3), 3).is_none());
}
