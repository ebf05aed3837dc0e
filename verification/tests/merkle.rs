use bridge_watcher::errors::WatcherError;
use bridge_watcher::hashing::{combine, node_from_id, Node};
use bridge_watcher::merkle::{build_merkle_proof, verify_merkle_proof};

fn leaf(byte: u8) -> Node {
    node_from_id(&vec![byte; 32])
}

fn zero() -> Node {
    Node::zero()
}

/// Scenario: leaves aa.., bb.., cc.. at depth 2, padded with one zero leaf;
/// target bb (index 1).
#[test]
fn proof_scenario_depth_two() {
    let leaves = vec![leaf(0xaa), leaf(0xbb), leaf(0xcc)];
    let p = build_merkle_proof(&leaves, 1, 2).unwrap();

    assert_eq!(p.dirs, vec![1u8, 0u8]);
    assert_eq!(p.siblings.len(), 2);

    // Level-0 sibling is the aa leaf.
    assert_eq!(p.siblings[0], leaf(0xaa));
    // Level-1 sibling is Combine(cc, zero).
    assert_eq!(p.siblings[1], combine(&leaf(0xcc), &zero()));
    // The root is Combine(Combine(aa, bb), Combine(cc, zero)).
    let expected_root = combine(
        &combine(&leaf(0xaa), &leaf(0xbb)),
        &combine(&leaf(0xcc), &zero()),
    );
    assert_eq!(p.root, expected_root);
}

#[test]
fn built_proofs_verify() {
    let leaves = vec![leaf(0xaa), leaf(0xbb), leaf(0xcc)];
    for idx in 0..3usize {
        let p = build_merkle_proof(&leaves, idx, 2).unwrap();
        assert!(verify_merkle_proof(&p, &leaves[idx], idx));
    }
    let single = vec![leaf(0x11)];
    let p = build_merkle_proof(&single, 0, 3).unwrap();
    assert!(verify_merkle_proof(&p, &single[0], 0));
}

#[test]
fn verify_rejects_wrong_leaf_or_index() {
    let leaves = vec![leaf(0xaa), leaf(0xbb), leaf(0xcc)];
    let p = build_merkle_proof(&leaves, 1, 2).unwrap();
    assert!(!verify_merkle_proof(&p, &leaves[0], 1));
    assert!(!verify_merkle_proof(&p, &leaves[1], 2));
}

/// The proof depth never follows the leaf count: it is always the requested
/// depth.
#[test]
fn proof_depth_fixed_for_any_leaf_count() {
    for n in 1..=4usize {
        let leaves: Vec<Node> = (0..n).map(|i| leaf(i as u8)).collect();
        let p = build_merkle_proof(&leaves, 0, 2).unwrap();
        assert_eq!(p.siblings.len(), 2);
        assert_eq!(p.dirs.len(), 2);
    }
    let leaves = vec![leaf(1), leaf(2)];
    let p = build_merkle_proof(&leaves, 1, 5).unwrap();
    assert_eq!(p.siblings.len(), 5);
    assert_eq!(p.dirs.len(), 5);
}

#[test]
fn too_many_leaves_refused() {
    let leaves: Vec<Node> = (0..5u8).map(leaf).collect();
    assert!(matches!(
        build_merkle_proof(&leaves, 0, 2),
        Err(WatcherError::ProofDepthExceeded)
    ));
}

/// Identical inputs give an identical proof.
#[test]
fn proof_is_deterministic() {
    let leaves = vec![leaf(0x01), leaf(0x02), leaf(0x03)];
    let a = build_merkle_proof(&leaves, 2, 2).unwrap();
    let b = build_merkle_proof(&leaves, 2, 2).unwrap();
    assert_eq!(a.root, b.root);
    assert_eq!(a.siblings, b.siblings);
    assert_eq!(a.dirs, b.dirs);
}
