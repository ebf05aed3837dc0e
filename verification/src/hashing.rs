use crate::bytes::be_bytes;
use crate::bytes::be_val16;
use crate::bytes::hi_of;
use crate::bytes::lo_of;
use crate::bytes::u128_to_be16;
use vstd::prelude::*;

verus! {

/// One Merkle tree node: a 256-bit hash held as two 128-bit big-endian
/// limbs, the form in which the downstream circuit consumes hashes.
#[derive(Clone, Copy, Debug, PartialEq, Eq, Structural)]
pub struct Node {
    pub hi: u128,
    pub lo: u128,
}

/// What `Sha256::digest` returns for the given input bytes.
pub uninterp spec fn sha256_of(data: Seq<u8>) -> Seq<u8>;

/// Relies on sha2's `Sha256::digest`: a deterministic function of the input
/// bytes alone, whose output is always exactly 32 bytes (`OutputSize = U32`).
#[verifier::external_body]
fn sha256(data: &Vec<u8>) -> (r: Vec<u8>)
    ensures
        r@ == sha256_of(data@),
        r@.len() == 32,
{
    <sha2::Sha256 as sha2::Digest>::digest(data.as_slice()).to_vec()
}

/// The all-zero node, used to pad a leaf set up to the tree width.
pub open spec fn zero_node() -> Node {
    Node { hi: 0, lo: 0 }
}

/// The node read from the two big-endian halves of a 32-byte hash.
pub open spec fn node_of_hash(h: Seq<u8>) -> Node {
    Node { hi: hi_of(h) as u128, lo: lo_of(h) as u128 }
}

/// The byte string hashed to combine two child nodes: each limb encoded as
/// 16 big-endian bytes, left child first.
pub open spec fn combine_input(l: Node, r: Node) -> Seq<u8> {
    be_bytes(l.hi as nat, 16) + be_bytes(l.lo as nat, 16) + be_bytes(r.hi as nat, 16) + be_bytes(
        r.lo as nat,
        16,
    )
}

/// The tree compression function: the SHA-256 digest of the fixed-width
/// encoding of the two children, split back into two 128-bit limbs. It is a
/// stand-in for the circuit-native compression function; the proof-building
/// algorithm relies only on it being a deterministic function of its two
/// arguments.
pub open spec fn combine_of(l: Node, r: Node) -> Node {
    node_of_hash(sha256_of(combine_input(l, r)))
}

/// The leaf standing for a transaction id: its two big-endian halves, or
/// the zero node when the id does not have the 32-byte hash length.
pub open spec fn leaf_of_id(id: Seq<u8>) -> Node {
    if id.len() == 32 {
        node_of_hash(id)
    } else {
        zero_node()
    }
}

impl Node {
    /// The all-zero padding node.
    pub fn zero() -> (n: Node)
        ensures
            n == zero_node(),
    {
        Node { hi: 0, lo: 0 }
    }
}

/// Reads a 32-byte hash into a node.
pub fn node_from_hash32(h: &Vec<u8>) -> (n: Node)
    requires
        h@.len() == 32,
    ensures
        n == node_of_hash(h@),
{
    let hi = be_val16(h, 0);
    let lo = be_val16(h, 16);
    Node { hi, lo }
}

/// The leaf for a transaction id, substituting the zero node for an id of
/// the wrong length.
pub fn node_from_id(id: &Vec<u8>) -> (n: Node)
    ensures
        n == leaf_of_id(id@),
{
    match crate::bytes::split_hash_to_hi_lo(id) {
        Ok(p) => Node { hi: p.0, lo: p.1 },
        Err(_) => Node::zero(),
    }
}

/// Combines two child nodes into their parent node.
pub fn combine(l: &Node, r: &Node) -> (res: Node)
    ensures
        res == combine_of(*l, *r),
{
    let mut data: Vec<u8> = u128_to_be16(l.hi);
    let mut part = u128_to_be16(l.lo);
    data.append(&mut part);
    let mut part = u128_to_be16(r.hi);
    data.append(&mut part);
    let mut part = u128_to_be16(r.lo);
    data.append(&mut part);
    proof {
        assert(data@ =~= combine_input(*l, *r));
    }
    let h = sha256(&data);
    node_from_hash32(&h)
}

} // verus!
