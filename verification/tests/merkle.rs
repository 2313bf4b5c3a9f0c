//! The tree engine exercised end to end: the committed root digest against
//! a hand computation, an extracted proof re-verified by hand, and the root
//! digest after a run of single-value updates.

use merkle_tree::hash_values;
use merkle_tree::MerkleTree;
use rand::thread_rng;
use rand::Rng;

#[test]
fn test_tree_hashes() {
    let mut rng = thread_rng();
    let vec: Vec<i32> = vec![rng.gen(), rng.gen(), rng.gen()];
    let mut mt: MerkleTree<i32> = MerkleTree::new();
    mt.commit(&vec).unwrap();
    let root_hash = mt.get_root_hash().unwrap();

    let h0 = hash_values(vec![Some(vec[0])]);
    let h1 = hash_values(vec![Some(vec[1])]);
    let h2 = hash_values(vec![Some(vec[2])]);
    let h3 = hash_values(vec![None::<i32>]);
    let h01 = hash_values(vec![h0, h1]);
    let h23 = hash_values(vec![h2, h3]);
    let h03 = hash_values(vec![h01, h23]);
    assert_eq!(h03, root_hash);
}

#[test]
fn test_verifying_path() {
    let mut rng = thread_rng();
    let random_size = rng.gen_range(0..10000);
    let mut random_vec = Vec::<i64>::new();
    for _ in 0..random_size {
        random_vec.push(rng.gen::<i64>());
    }
    let mut index = rng.gen_range(0..random_size);

    let mut mt: MerkleTree<i64> = MerkleTree::new();
    mt.commit(&random_vec).unwrap();
    let root_hash = mt.get_root_hash().unwrap();
    let query_result = mt.get_with_proof(index).unwrap();

    assert_eq!(query_result.0, random_vec[index]);
    // Every bit of the index, lowest first, says on which side the current
    // digest sits below its parent.
    let mut current_hash = hash_values(vec![Some(query_result.0)]);
    for h in query_result.1.iter() {
        if (index & 1) != 0 {
            current_hash = hash_values(vec![*h, current_hash]);
        } else {
            current_hash = hash_values(vec![current_hash, *h]);
        }
        index /= 2;
    }
    assert_eq!(current_hash, root_hash);
}

#[test]
fn test_hashes_after_change() {
    let mut rng = thread_rng();
    let mut vec = Vec::<u128>::new();
    for _ in 0..5 {
        vec.push(rng.gen::<u128>());
    }
    let mut mt: MerkleTree<u128> = MerkleTree::new();
    mt.commit(&vec).unwrap();

    // Change the whole padded array of values and compare against a tree
    // built from the replacement values directly.
    let mut new_vec = Vec::<u128>::new();
    for _ in 0..7 {
        new_vec.push(rng.gen::<u128>());
    }
    let mut last_root_hash = 0;
    for i in 0..7 {
        last_root_hash = mt.change_value(i, new_vec[i]).unwrap();
    }

    let mut new_mt: MerkleTree<u128> = MerkleTree::new();
    new_mt.commit(&new_vec).unwrap();
    assert_eq!(last_root_hash, new_mt.get_root_hash().unwrap());
}
