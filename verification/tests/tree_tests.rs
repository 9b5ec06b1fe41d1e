use infimum::tree::{MerkleTree, MerkleTreeError};

fn err_of(r: Result<infimum::tree::MerkleTree, MerkleTreeError>) -> MerkleTreeError {
    match r {
        Ok(_) => panic!("the operation was expected to fail"),
        Err(e) => e,
    }
}

fn leaf(n: u8) -> [u8; 32] {
    let mut out = [0u8; 32];
    out[31] = n;
    out
}

fn poseidon(inputs: &[[u8; 32]]) -> [u8; 32] {
    let mut hasher =
        light_poseidon::Poseidon::<ark_bn254::Fr>::new_circom(inputs.len()).unwrap();
    let elements: Vec<ark_bn254::Fr> = inputs
        .iter()
        .map(|b| <ark_bn254::Fr as ark_ff::PrimeField>::from_be_bytes_mod_order(b))
        .collect();
    let f = light_poseidon::PoseidonHasher::hash(&mut hasher, &elements).unwrap();
    let bytes = ark_ff::BigInteger::to_bytes_be(&ark_ff::PrimeField::into_bigint(f));
    let mut out = [0u8; 32];
    out.copy_from_slice(&bytes);
    out
}

#[test]
fn count_tracks_insertions_and_root_stays_absent() {
    let mut tree = MerkleTree::new(5, 2).unwrap();
    assert_eq!(tree.count(), 0);
    assert!(tree.root().is_none());
    for k in 1..=10u32 {
        tree = tree.insert(leaf(k as u8)).unwrap();
        assert_eq!(tree.count(), k);
        assert!(tree.root().is_none());
    }
}

#[test]
fn capacity_of_arity_five_depth_two_is_twenty_five() {
    let mut tree = MerkleTree::new(5, 2).unwrap();
    for k in 0..25u32 {
        tree = tree.insert(leaf(k as u8)).unwrap();
    }
    assert_eq!(tree.count(), 25);
    let err = err_of(tree.insert(leaf(25)));
    assert_eq!(err, MerkleTreeError::CapacityExceeded);
}

#[test]
fn arity_outside_sponge_range_is_refused() {
    let err = err_of(MerkleTree::new(13, 2));
    assert_eq!(err, MerkleTreeError::HashUnavailable);
    let err = err_of(MerkleTree::new(1, 2));
    assert_eq!(err, MerkleTreeError::HashUnavailable);
}

#[test]
fn insert_after_merge_is_refused() {
    let tree = MerkleTree::new(2, 2).unwrap();
    let tree = tree.insert(leaf(1)).unwrap();
    let tree = tree.merge(false).unwrap();
    assert!(tree.root().is_some());
    let err = err_of(tree.insert(leaf(2)));
    assert_eq!(err, MerkleTreeError::AlreadyFinalized);
}

#[test]
fn merging_twice_yields_the_same_root() {
    let tree = MerkleTree::new(3, 2).unwrap();
    let tree = tree.insert(leaf(9)).unwrap();
    let tree = tree.insert(leaf(8)).unwrap();
    let tree = tree.merge(false).unwrap();
    let first = tree.root().unwrap();
    let tree = tree.merge(false).unwrap();
    let second = tree.root().unwrap();
    assert_eq!(first, second);
    let tree = tree.merge(true).unwrap();
    assert_eq!(tree.root().unwrap(), first);
}

#[test]
fn zero_padded_root_matches_the_sponge() {
    // One leaf in an arity-2, depth-1 tree padded with the zero leaf.
    let tree = MerkleTree::new(2, 1).unwrap();
    let tree = tree.insert(leaf(7)).unwrap();
    let tree = tree.merge(false).unwrap();
    let expected = poseidon(&[leaf(7), [0u8; 32]]);
    assert_eq!(tree.root().unwrap(), expected);
}

#[test]
fn deep_zero_padded_root_matches_the_sponge() {
    // Three leaves in an arity-2, depth-2 tree: the pair is hashed once, the
    // odd leaf pairs with the zero leaf, and the two join at the root.
    let tree = MerkleTree::new(2, 2).unwrap();
    let tree = tree.insert(leaf(1)).unwrap();
    let tree = tree.insert(leaf(2)).unwrap();
    let tree = tree.insert(leaf(3)).unwrap();
    let tree = tree.merge(false).unwrap();
    let left = poseidon(&[leaf(1), leaf(2)]);
    let right = poseidon(&[leaf(3), [0u8; 32]]);
    let expected = poseidon(&[left, right]);
    assert_eq!(tree.root().unwrap(), expected);
}

#[test]
fn ballot_padded_root_uses_the_empty_ballot_leaf() {
    let tree = MerkleTree::new(2, 1).unwrap();
    let tree = tree.insert(leaf(7)).unwrap();
    let tree = tree.merge(true).unwrap();
    let empty_ballot = poseidon(&[[0u8; 32]; 5]);
    let expected = poseidon(&[leaf(7), empty_ballot]);
    assert_eq!(tree.root().unwrap(), expected);
}

#[test]
fn full_tree_root_needs_no_padding() {
    let mut tree = MerkleTree::new(2, 1).unwrap();
    tree = tree.insert(leaf(1)).unwrap();
    tree = tree.insert(leaf(2)).unwrap();
    let tree = tree.merge(false).unwrap();
    assert_eq!(tree.root().unwrap(), poseidon(&[leaf(1), leaf(2)]));
}
