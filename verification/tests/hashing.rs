use bridge_watcher::hashing::{combine, node_from_id, Node};
use sha2::{Digest, Sha256};

/// Recomputes the compression function independently: SHA-256 over the four
/// limbs, each as 16 big-endian bytes, left node first.
fn reference_combine(l: &Node, r: &Node) -> Node {
    let mut data = Vec::new();
    data.extend_from_slice(&l.hi.to_be_bytes());
    data.extend_from_slice(&l.lo.to_be_bytes());
    data.extend_from_slice(&r.hi.to_be_bytes());
    data.extend_from_slice(&r.lo.to_be_bytes());
    let h = Sha256::digest(&data);
    let mut hi_bytes = [0u8; 16];
    let mut lo_bytes = [0u8; 16];
    hi_bytes.copy_from_slice(&h[0..16]);
    lo_bytes.copy_from_slice(&h[16..32]);
    Node {
        hi: u128::from_be_bytes(hi_bytes),
        lo: u128::from_be_bytes(lo_bytes),
    }
}

#[test]
fn combine_matches_sha256_of_zero_nodes() {
    let z = Node::zero();
    let c = combine(&z, &z);
    // SHA-256 of 64 zero bytes, split into its big-endian halves.
    assert_eq!(c.hi, 326522724692461750427768532537390503835u128);
    assert_eq!(c.lo, 89059515727727869117346995944635890507u128);
    assert_eq!(c, reference_combine(&z, &z));
}

#[test]
fn combine_matches_sha256_of_arbitrary_nodes() {
    let a = node_from_id(&(0u8..32).collect());
    let b = node_from_id(&vec![0x5au8; 32]);
    assert_eq!(combine(&a, &b), reference_combine(&a, &b));
    assert_eq!(combine(&b, &a), reference_combine(&b, &a));
    // The combination is ordered: swapping the children changes the parent.
    assert_ne!(combine(&a, &b), combine(&b, &a));
}

#[test]
fn node_from_short_id_is_zero() {
    assert_eq!(node_from_id(&vec![0xffu8; 31]), Node::zero());
    assert_eq!(node_from_id(&Vec::new()), Node::zero());
    let n = node_from_id(&vec![0xffu8; 32]);
    assert_ne!(n, Node::zero());
}
