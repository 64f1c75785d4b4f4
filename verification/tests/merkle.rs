use merkle_tree::tree::MerkleTree;

use sha2::Digest;

/// The digest convention of the tree, recomputed independently: SHA-256 of
/// the text, lower-case hex.
fn reference_digest(data: &str) -> String {
    hex::encode(sha2::Sha256::digest(data))
}

fn root_of(tree: &MerkleTree) -> Option<String> {
    tree.root_hash().cloned()
}

#[test]
fn digest_hex_matches_reference() {
    let got = merkle_tree::hashing::digest_hex("abc");
    // The published SHA-256 test vector for "abc".
    assert_eq!(
        got,
        "ba7816bf8f01cfea414140de5dae2223b00361a396177a9cb410ff61f20015ad"
    );
    assert_eq!(got, reference_digest("abc"));
    assert_eq!(merkle_tree::hashing::digest_hex(""), reference_digest(""));
}

#[test]
fn empty_tree_has_no_root_and_no_proofs() {
    let tree = MerkleTree::new(vec![]);
    assert!(root_of(&tree).is_none());
    assert!(tree.generate_proof("anything").is_none());
    assert!(tree.generate_proof("").is_none());
}

#[test]
fn single_leaf_root_is_the_leaf_itself() {
    let tree = MerkleTree::new(vec!["data1"]);
    assert_eq!(root_of(&tree).as_deref(), Some("data1"));
    // Present but empty: found at the root, no siblings on the way.
    assert_eq!(tree.generate_proof("data1"), Some(vec![]));
    assert!(tree.generate_proof("data2").is_none());
}

#[test]
fn two_leaf_root_is_the_combined_digest() {
    let tree = MerkleTree::new(vec!["data1", "data2"]);
    assert_eq!(root_of(&tree), Some(reference_digest("data1data2")));
    assert_eq!(
        tree.generate_proof("data1"),
        Some(vec!["data2".to_string()])
    );
    assert_eq!(
        tree.generate_proof("data2"),
        Some(vec!["data1".to_string()])
    );
}

#[test]
fn four_leaf_proof_scenario() {
    let tree = MerkleTree::new(vec!["data1", "data2", "data3", "data4"]);
    let h12 = reference_digest("data1data2");
    let h34 = reference_digest("data3data4");
    let root = reference_digest(&format!("{}{}", h12, h34));
    assert_eq!(root_of(&tree), Some(root.clone()));

    // "data3" pairs with "data4": its first proof element is that raw leaf,
    // the second the combined hash of the other pair.
    let proof = tree.generate_proof("data3").expect("leaf must be found");
    assert_eq!(proof, vec!["data4".to_string(), h12.clone()]);

    // The round trip: sibling "data4" sits to the right, sibling h12 to the
    // left; recombining step by step reproduces the root.
    let step1 = reference_digest(&format!("{}{}", "data3", "data4"));
    let step2 = reference_digest(&format!("{}{}", h12, step1));
    assert_eq!(step2, root);

    let proof1 = tree.generate_proof("data1").expect("leaf must be found");
    assert_eq!(proof1, vec!["data2".to_string(), h34.clone()]);
}

#[test]
fn every_leaf_of_a_four_leaf_tree_recombines_to_the_root() {
    let leaves = ["data1", "data2", "data3", "data4"];
    // Whether each proof element sits to the right of the running hash,
    // leaf by leaf, known from the fixed shape of a four-leaf tree.
    let sides: [[bool; 2]; 4] = [
        [true, true],
        [false, true],
        [true, false],
        [false, false],
    ];
    let tree = MerkleTree::new(leaves.to_vec());
    let root = root_of(&tree).expect("four leaves give a root");
    for (i, leaf) in leaves.iter().enumerate() {
        let proof = tree.generate_proof(leaf).expect("leaf must be found");
        let mut acc = leaf.to_string();
        for (j, sibling) in proof.iter().enumerate() {
            acc = if sides[i][j] {
                reference_digest(&format!("{}{}", acc, sibling))
            } else {
                reference_digest(&format!("{}{}", sibling, acc))
            };
        }
        assert_eq!(acc, root, "leaf {} did not recombine to the root", leaf);
    }
}

#[test]
fn odd_leaf_is_paired_with_its_own_copy() {
    let tree = MerkleTree::new(vec!["a", "b", "c"]);
    let hab = reference_digest("ab");
    let hcc = reference_digest("cc");
    let root = reference_digest(&format!("{}{}", hab, hcc));
    assert_eq!(root_of(&tree), Some(root));
    // "c" was duplicated as its own partner: its first sibling is itself.
    assert_eq!(
        tree.generate_proof("c"),
        Some(vec!["c".to_string(), hab.clone()])
    );
}

#[test]
fn duplicating_the_last_of_an_odd_count_keeps_the_root() {
    let odd = MerkleTree::new(vec!["a", "b", "c"]);
    let padded = MerkleTree::new(vec!["a", "b", "c", "c"]);
    assert_eq!(root_of(&odd), root_of(&padded));
}

#[test]
fn construction_is_deterministic() {
    let t1 = MerkleTree::new(vec!["data1", "data2", "data3"]);
    let t2 = MerkleTree::new(vec!["data1", "data2", "data3"]);
    assert_eq!(root_of(&t1), root_of(&t2));
    assert_eq!(t1.generate_proof("data2"), t2.generate_proof("data2"));
}

#[test]
fn root_changes_with_leaf_value_order_and_count() {
    let base = root_of(&MerkleTree::new(vec!["data1", "data2", "data3", "data4"]));
    let changed = root_of(&MerkleTree::new(vec!["data1", "data2", "datax", "data4"]));
    let reordered = root_of(&MerkleTree::new(vec!["data2", "data1", "data3", "data4"]));
    let removed = root_of(&MerkleTree::new(vec!["data1", "data2", "data3"]));
    assert_ne!(base, changed);
    assert_ne!(base, reordered);
    assert_ne!(base, removed);
}

#[test]
fn absent_target_yields_no_proof() {
    let tree = MerkleTree::new(vec!["data1", "data2", "data3", "data4"]);
    assert!(tree.generate_proof("data5").is_none());
    assert!(tree.generate_proof("").is_none());
    assert!(tree.generate_proof("DATA1").is_none());
}

#[test]
fn internal_hash_matches_too() {
    // The search compares every node's hash, not only the leaves: a target
    // equal to an internal node's digest is found there, and its proof is
    // rooted at that node.
    let tree = MerkleTree::new(vec!["data1", "data2", "data3", "data4"]);
    let h12 = reference_digest("data1data2");
    let h34 = reference_digest("data3data4");
    assert_eq!(tree.generate_proof(&h12), Some(vec![h34.clone()]));
    let root = reference_digest(&format!("{}{}", h12, h34));
    assert_eq!(tree.generate_proof(&root), Some(vec![]));
}

#[test]
fn leaf_node_stores_the_value_unchanged() {
    let node = merkle_tree::tree::MerkleNode::new("data1");
    assert_eq!(node.hash, "data1");
    assert!(node.left.is_none());
    assert!(node.right.is_none());
}

#[test]
fn build_tree_on_an_empty_level_leaves_no_root() {
    let mut tree = MerkleTree::new(vec![]);
    tree.build_tree(vec![]);
    assert!(tree.root_hash().is_none());
}
