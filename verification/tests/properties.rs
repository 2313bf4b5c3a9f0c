//! The stated properties of the engine on concrete values: determinism,
//! soundness and tamper-rejection of proofs, update locality, build/update
//! equivalence, the boundary cases, and each error variant.

use merkle_tree::hash_values;
use merkle_tree::verify;
use merkle_tree::MerkleError;
use merkle_tree::MerkleTree;

fn committed(values: &Vec<i32>) -> (MerkleTree<i32>, u64) {
    let mut mt: MerkleTree<i32> = MerkleTree::new();
    let root = mt.commit(values).unwrap();
    (mt, root)
}

#[test]
fn construction_deterministic() {
    let values: Vec<i32> = vec![7, -3, 0, 12, 5];
    let (_, root_a) = committed(&values);
    let (_, root_b) = committed(&values);
    assert_eq!(root_a, root_b);
}

#[test]
fn proofs_verify_for_every_index() {
    let values: Vec<i32> = vec![10, 20, 30, 40, 50];
    let (mt, root) = committed(&values);
    for i in 0..values.len() {
        let (value, siblings) = mt.get_with_proof(i).unwrap();
        assert_eq!(value, values[i]);
        assert!(verify(value, i, &siblings, root));
    }
}

#[test]
fn tampered_proofs_fail() {
    let values: Vec<i32> = vec![0, 3, 4, 15];
    let (mt, root) = committed(&values);
    let (value, siblings) = mt.get_with_proof(1).unwrap();
    assert!(verify(value, 1, &siblings, root));

    // one flipped sibling digest
    for k in 0..siblings.len() {
        let mut tampered = siblings.clone();
        tampered[k] ^= 1;
        assert!(!verify(value, 1, &tampered, root));
    }
    // the wrong index (wrong parity)
    assert!(!verify(value, 0, &siblings, root));
    // a structurally wrong proof length
    let mut short = siblings.clone();
    short.pop();
    assert!(!verify(value, 1, &short, root));
    let mut long = siblings.clone();
    long.push(0);
    assert!(!verify(value, 1, &long, root));
    // the wrong value
    assert!(!verify(value + 1, 1, &siblings, root));
}

#[test]
fn update_locality() {
    let values: Vec<i32> = vec![1, 2, 3, 4];
    let (mut mt, _) = committed(&values);
    let new_root = mt.change_value(2, 99).unwrap();
    for j in 0..values.len() {
        if j != 2 {
            let (value, siblings) = mt.get_with_proof(j).unwrap();
            assert_eq!(value, values[j]);
            assert!(verify(value, j, &siblings, new_root));
        }
    }
    let (changed, siblings) = mt.get_with_proof(2).unwrap();
    assert_eq!(changed, 99);
    assert!(verify(changed, 2, &siblings, new_root));
}

#[test]
fn build_update_equivalence() {
    let values: Vec<i32> = vec![5, 6, 7, 8, 9];
    let (mut mt, _) = committed(&values);
    let updated_root = mt.change_value(3, 42).unwrap();

    let replaced: Vec<i32> = vec![5, 6, 7, 42, 9];
    let (_, rebuilt_root) = committed(&replaced);
    assert_eq!(updated_root, rebuilt_root);
}

#[test]
fn singleton_tree() {
    let values: Vec<i32> = vec![77];
    let (mt, root) = committed(&values);
    // one leaf, no padding: the root digest is the leaf digest itself
    assert_eq!(root, hash_values(vec![Some(77)]));
    let (value, siblings) = mt.get_with_proof(0).unwrap();
    assert_eq!(value, 77);
    assert!(siblings.is_empty());
    assert!(verify(77, 0, &siblings, root));
}

#[test]
fn out_of_range_is_rejected() {
    let values: Vec<i32> = vec![1, 2, 3, 4];
    let (mut mt, root) = committed(&values);
    assert_eq!(mt.get_with_proof(4).unwrap_err(), MerkleError::IndexOutOfRange);
    assert_eq!(mt.change_value(4, 0).unwrap_err(), MerkleError::IndexOutOfRange);
    // the failed calls left the tree as it was
    assert_eq!(mt.get_root_hash().unwrap(), root);
}

#[test]
fn padding_slot_access_is_rejected() {
    let values: Vec<i32> = vec![1, 2, 3];
    let (mt, _) = committed(&values);
    // slot 3 exists (padded length 4) but holds no user value
    assert_eq!(mt.get_with_proof(3).unwrap_err(), MerkleError::PaddingSlotAccess);
}

#[test]
fn uninitialized_tree_is_rejected() {
    let mt: MerkleTree<i32> = MerkleTree::new();
    assert_eq!(mt.get_root_hash().unwrap_err(), MerkleError::UninitializedTree);
    // with no slots at all, every index is out of range
    assert_eq!(mt.get_with_proof(0).unwrap_err(), MerkleError::IndexOutOfRange);
}

#[test]
fn double_commit_is_rejected() {
    let values: Vec<i32> = vec![4, 5, 6];
    let (mut mt, root) = committed(&values);
    let again: Vec<i32> = vec![9, 9];
    assert_eq!(mt.commit(&again).unwrap_err(), MerkleError::DoubleCommit);
    // the first commitment is intact
    assert_eq!(mt.get_root_hash().unwrap(), root);
    let (value, _) = mt.get_with_proof(1).unwrap();
    assert_eq!(value, 5);
}

#[test]
fn concrete_four_leaf_scenario() {
    let values: Vec<i32> = vec![0, 3, 4, 15];
    let (mt, root) = committed(&values);

    let h0 = hash_values(vec![Some(0)]);
    let h1 = hash_values(vec![Some(3)]);
    let h2 = hash_values(vec![Some(4)]);
    let h3 = hash_values(vec![Some(15)]);
    let h01 = hash_values(vec![h0, h1]);
    let h23 = hash_values(vec![h2, h3]);
    assert_eq!(root, hash_values(vec![h01, h23]));

    let (value, siblings) = mt.get_with_proof(1).unwrap();
    assert_eq!(value, 3);
    // closest sibling first
    assert_eq!(siblings, vec![h0, h23]);

    // index 1 is odd: the sibling goes on the left; then index shifts to 0,
    // even: the sibling goes on the right
    let step1 = hash_values(vec![h0, h1]);
    let step2 = hash_values(vec![step1, h23]);
    assert_eq!(step2, root);
    assert!(verify(3, 1, &siblings, root));
}

#[test]
fn empty_input_commits_one_padding_slot() {
    let values: Vec<i32> = vec![];
    let (mt, root) = committed(&values);
    assert_eq!(root, hash_values(vec![None::<i32>]));
    assert_eq!(mt.get_with_proof(0).unwrap_err(), MerkleError::PaddingSlotAccess);
}

#[test]
fn updating_a_padding_slot_matches_a_longer_build() {
    let values: Vec<i32> = vec![1, 2, 3];
    let (mut mt, _) = committed(&values);
    let root = mt.change_value(3, 9).unwrap();
    let (value, _) = mt.get_with_proof(3).unwrap();
    assert_eq!(value, 9);
    let longer: Vec<i32> = vec![1, 2, 3, 9];
    let (_, longer_root) = committed(&longer);
    assert_eq!(root, longer_root);
}

#[test]
fn combinator_is_order_sensitive_and_tags_presence() {
    assert_ne!(hash_values(vec![1u64, 2u64]), hash_values(vec![2u64, 1u64]));
    assert_ne!(hash_values(vec![Some(0i32)]), hash_values(vec![None::<i32>]));
    // in-range bounds are inclusive on both ends
    assert!(MerkleTree::<i32>::in_range(2, (2, 4)));
    assert!(MerkleTree::<i32>::in_range(4, (2, 4)));
    assert!(!MerkleTree::<i32>::in_range(5, (2, 4)));
    assert!(!MerkleTree::<i32>::in_range(1, (2, 4)));
}
