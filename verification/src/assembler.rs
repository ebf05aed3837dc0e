use crate::bytes::bytes_eq;
use crate::errors::WatcherError;
use crate::hashing::leaf_of_id;
use crate::hashing::node_from_id;
use crate::hashing::Node;
use crate::merkle::build_merkle_proof;
use crate::merkle::fold_path;
use crate::merkle::padded;
use crate::merkle::root_of;
use crate::merkle::MerkleProof;
use vstd::arithmetic::power2::lemma2_to64;
use vstd::arithmetic::power2::pow2;
use vstd::prelude::*;

verus! {

/// Fixed width of the raw-transaction field, in bytes.
pub const N_TX_BYTES: usize = 2000;

/// Fixed number of output slots the circuit can express.
pub const N_OUTPUTS: usize = 4;

/// Fixed width of the memo field, in bytes.
pub const N_MEMO_BYTES: usize = 32;

/// Fixed width of an output script hash, in bytes.
pub const SCRIPT_HASH_BYTES: usize = 32;

/// Fixed depth of the per-block inclusion tree.
pub const MERKLE_DEPTH: usize = 20;

/// `n` zero bytes.
pub open spec fn zero_bytes(n: nat) -> Seq<u8> {
    Seq::new(n, |j: int| 0u8)
}

/// `b` truncated or zero-padded on the right to exactly `n` bytes.
pub open spec fn normalized(b: Seq<u8>, n: nat) -> Seq<u8> {
    if b.len() >= n {
        b.take(n as int)
    } else {
        b + zero_bytes((n - b.len()) as nat)
    }
}

/// One real transparent output of the source transaction: its value and the
/// hash of its script.
pub struct OutputSlot {
    pub value: u64,
    pub script_hash: Vec<u8>,
}

/// The fixed-shape structure handed to the proving system. Every
/// variable-length input is normalized to its fixed width before it is
/// stored here; no variable-length field ever leaves the assembler.
pub struct CircuitInput {
    pub tx_bytes: Vec<u8>,
    pub memo_bytes: Vec<u8>,
    pub out_values: Vec<u64>,
    pub out_script_hashes: Vec<Vec<u8>>,
    pub merkle_proof: MerkleProof,
    pub tx_id_hi: u128,
    pub tx_id_lo: u128,
}

impl CircuitInput {
    /// Every variable-length field at its fixed width.
    pub open spec fn wf(self) -> bool {
        &&& self.tx_bytes@.len() == N_TX_BYTES
        &&& self.memo_bytes@.len() == N_MEMO_BYTES
        &&& self.out_values@.len() == N_OUTPUTS
        &&& self.out_script_hashes@.len() == N_OUTPUTS
        &&& forall|k: int|
            0 <= k < N_OUTPUTS ==> (#[trigger] self.out_script_hashes@[k])@.len()
                == SCRIPT_HASH_BYTES
    }
}

/// A vector of `n` zero bytes.
pub fn zeros(n: usize) -> (r: Vec<u8>)
    ensures
        r@ == zero_bytes(n as nat),
{
    let mut r: Vec<u8> = Vec::new();
    let mut i: usize = 0;
    while i < n
        invariant
            i <= n,
            r@.len() == i,
            forall|j: int| 0 <= j < i ==> r@[j] == 0u8,
        decreases n - i,
    {
        r.push(0u8);
        i = i + 1;
    }
    proof {
        assert(r@ =~= zero_bytes(n as nat));
    }
    r
}

/// Truncates or zero-pads `b` on the right to exactly `n` bytes. Truncation
/// is lossy: bytes beyond the width are dropped, so callers that must keep
/// every byte have to stay within the width.
pub fn normalize_bytes(b: &Vec<u8>, n: usize) -> (r: Vec<u8>)
    ensures
        r@ == normalized(b@, n as nat),
        r@.len() == n,
{
    let count = if b.len() < n {
        b.len()
    } else {
        n
    };
    let mut r: Vec<u8> = Vec::new();
    let mut i: usize = 0;
    while i < count
        invariant
            i <= count,
            count <= b@.len(),
            count <= n,
            r@.len() == i,
            forall|j: int| 0 <= j < i ==> r@[j] == b@[j],
        decreases count - i,
    {
        r.push(b[i]);
        i = i + 1;
    }
    while r.len() < n
        invariant
            count <= r@.len() <= n,
            count <= b@.len(),
            count <= n,
            forall|j: int| 0 <= j < count ==> r@[j] == b@[j],
            forall|j: int| count <= j < r@.len() ==> r@[j] == 0u8,
        decreases n - r.len(),
    {
        r.push(0u8);
    }
    proof {
        assert(r@ =~= normalized(b@, n as nat));
    }
    r
}

/// Where `t` first occurs in `ids`, if anywhere.
pub open spec fn spec_find(ids: Seq<Seq<u8>>, t: Seq<u8>) -> Option<int>
    decreases ids.len(),
{
    if ids.len() == 0 {
        None
    } else if ids[0] == t {
        Some(0int)
    } else {
        match spec_find(ids.drop_first(), t) {
            Some(i) => Some(i + 1),
            None => None,
        }
    }
}

/// The index of the first occurrence of `t`, or 0 when `t` is absent —
/// the scanner's fallback for a txid missing from its own block's list.
pub open spec fn spec_index_of(ids: Seq<Seq<u8>>, t: Seq<u8>) -> int {
    match spec_find(ids, t) {
        Some(i) => i,
        None => 0,
    }
}

/// The byte strings of a list of transaction ids.
pub open spec fn ids_view(ids: Seq<Vec<u8>>) -> Seq<Seq<u8>> {
    ids.map(|i: int, v: Vec<u8>| v@)
}

/// The leaf nodes of a list of transaction ids.
pub open spec fn leaves_of_ids(ids: Seq<Vec<u8>>) -> Seq<Node> {
    ids.map(|i: int, v: Vec<u8>| leaf_of_id(v@))
}

/// When no id among the first `i` matches, the find result is decided by
/// the remaining ids, shifted by `i`.
proof fn lemma_find_skip(ids: Seq<Seq<u8>>, t: Seq<u8>, i: int)
    requires
        0 <= i <= ids.len(),
        forall|j: int| 0 <= j < i ==> ids[j] != t,
    ensures
        spec_find(ids, t) == match spec_find(ids.skip(i), t) {
            Some(k) => Some(k + i),
            None => None::<int>,
        },
    decreases i,
{
    if i == 0 {
        assert(ids.skip(0) =~= ids);
    } else {
        assert(ids.drop_first() =~= ids.skip(1));
        lemma_find_skip(ids.drop_first(), t, i - 1);
        assert(ids.drop_first().skip(i - 1) =~= ids.skip(i));
    }
}

/// The index of the first id equal to `txid`, or 0 when it is absent.
pub fn index_of_txid(block_txids: &Vec<Vec<u8>>, txid: &Vec<u8>) -> (r: usize)
    ensures
        r as int == spec_index_of(ids_view(block_txids@), txid@),
        r == 0 || r < block_txids@.len(),
{
    let mut i: usize = 0;
    while i < block_txids.len()
        invariant
            i <= block_txids@.len(),
            forall|j: int| 0 <= j < i ==> #[trigger] ids_view(block_txids@)[j] != txid@,
        decreases block_txids@.len() - i,
    {
        if bytes_eq(&block_txids[i], txid) {
            proof {
                let ids = ids_view(block_txids@);
                lemma_find_skip(ids, txid@, i as int);
                assert(ids.skip(i as int)[0] == ids[i as int]);
            }
            return i;
        }
        i = i + 1;
    }
    proof {
        let ids = ids_view(block_txids@);
        lemma_find_skip(ids, txid@, ids.len() as int);
        assert(ids.skip(ids.len() as int) =~= Seq::<Seq<u8>>::empty());
    }
    0
}

/// Packs one detection into the fixed-shape circuit input: the raw
/// transaction truncated or zero-padded to `N_TX_BYTES`, the memo to
/// `N_MEMO_BYTES`, the real outputs into the leading slots of exactly
/// `N_OUTPUTS` (each script hash normalized to `SCRIPT_HASH_BYTES`, the rest
/// filled with value 0 and the zero script hash), the txid split into its
/// two big-endian 128-bit halves (the all-zero pair when its length is not
/// 32), and the Merkle proof stored unchanged. More real outputs than the
/// circuit has slots are refused as `TooManyOutputs`.
pub fn assemble(
    raw_tx: &Vec<u8>,
    txid: &Vec<u8>,
    outputs: &Vec<OutputSlot>,
    memo: &Vec<u8>,
    merkle_proof: MerkleProof,
) -> (r: Result<CircuitInput, WatcherError>)
    ensures
        outputs@.len() > N_OUTPUTS ==> r == Err::<CircuitInput, WatcherError>(
            WatcherError::TooManyOutputs,
        ),
        outputs@.len() <= N_OUTPUTS ==> (r matches Ok(ci) && ci.wf() && ci.tx_bytes@ == normalized(
            raw_tx@,
            N_TX_BYTES as nat,
        ) && ci.memo_bytes@ == normalized(memo@, N_MEMO_BYTES as nat) && (forall|k: int|
            0 <= k < outputs@.len() ==> #[trigger] ci.out_values@[k] == outputs@[k].value) && (
        forall|k: int|
            0 <= k < outputs@.len() ==> (#[trigger] ci.out_script_hashes@[k])@ == normalized(
                outputs@[k].script_hash@,
                SCRIPT_HASH_BYTES as nat,
            )) && (forall|k: int|
            outputs@.len() <= k < N_OUTPUTS ==> #[trigger] ci.out_values@[k] == 0) && (forall|
            k: int,
        |
            outputs@.len() <= k < N_OUTPUTS ==> (#[trigger] ci.out_script_hashes@[k])@
                == zero_bytes(SCRIPT_HASH_BYTES as nat)) && ci.tx_id_hi == leaf_of_id(txid@).hi
            && ci.tx_id_lo == leaf_of_id(txid@).lo && ci.merkle_proof == merkle_proof),
{
    if outputs.len() > N_OUTPUTS {
        return Err(WatcherError::TooManyOutputs);
    }
    let tx_bytes = normalize_bytes(raw_tx, N_TX_BYTES);
    let memo_bytes = normalize_bytes(memo, N_MEMO_BYTES);
    let mut out_values: Vec<u64> = Vec::new();
    let mut out_script_hashes: Vec<Vec<u8>> = Vec::new();
    let mut k: usize = 0;
    while k < outputs.len()
        invariant
            k <= outputs@.len(),
            outputs@.len() <= N_OUTPUTS,
            out_values@.len() == k,
            out_script_hashes@.len() == k,
            forall|kk: int| 0 <= kk < k ==> #[trigger] out_values@[kk] == outputs@[kk].value,
            forall|kk: int|
                0 <= kk < k ==> (#[trigger] out_script_hashes@[kk])@ == normalized(
                    outputs@[kk].script_hash@,
                    SCRIPT_HASH_BYTES as nat,
                ),
        decreases outputs@.len() - k,
    {
        out_values.push(outputs[k].value);
        let h = normalize_bytes(&outputs[k].script_hash, SCRIPT_HASH_BYTES);
        out_script_hashes.push(h);
        k = k + 1;
    }
    while out_values.len() < N_OUTPUTS
        invariant
            outputs@.len() <= out_values@.len() <= N_OUTPUTS,
            out_script_hashes@.len() == out_values@.len(),
            forall|kk: int|
                0 <= kk < outputs@.len() ==> #[trigger] out_values@[kk] == outputs@[kk].value,
            forall|kk: int|
                0 <= kk < outputs@.len() ==> (#[trigger] out_script_hashes@[kk])@ == normalized(
                    outputs@[kk].script_hash@,
                    SCRIPT_HASH_BYTES as nat,
                ),
            forall|kk: int|
                outputs@.len() <= kk < out_values@.len() ==> #[trigger] out_values@[kk] == 0,
            forall|kk: int|
                outputs@.len() <= kk < out_values@.len() ==> (#[trigger] out_script_hashes@[kk])@
                    == zero_bytes(SCRIPT_HASH_BYTES as nat),
        decreases N_OUTPUTS - out_values.len(),
    {
        out_values.push(0u64);
        let zh = zeros(SCRIPT_HASH_BYTES);
        out_script_hashes.push(zh);
    }
    let tx_node = node_from_id(txid);
    Ok(
        CircuitInput {
            tx_bytes,
            memo_bytes,
            out_values,
            out_script_hashes,
            merkle_proof,
            tx_id_hi: tx_node.hi,
            tx_id_lo: tx_node.lo,
        },
    )
}

/// Builds the full circuit input for one detected transaction, as the
/// scanner submits it: the leaf set is the block's ordered txid list, the
/// target is the transaction's own position in it (0 when, against the
/// scanner's convention, it is missing), the tree has the fixed
/// `MERKLE_DEPTH`, and the output slots and memo stay all-zero until a real
/// output parser is injected.
pub fn build_tx_data(raw_tx: &Vec<u8>, txid: &Vec<u8>, block_txids: &Vec<Vec<u8>>) -> (r: Result<
    CircuitInput,
    WatcherError,
>)
    requires
        block_txids@.len() >= 1,
    ensures
        block_txids@.len() > pow2(MERKLE_DEPTH as nat) ==> r == Err::<CircuitInput, WatcherError>(
            WatcherError::ProofDepthExceeded,
        ),
        block_txids@.len() <= pow2(MERKLE_DEPTH as nat) ==> (r matches Ok(ci) && ci.wf()
            && ci.tx_bytes@ == normalized(raw_tx@, N_TX_BYTES as nat) && ci.memo_bytes@
            == zero_bytes(N_MEMO_BYTES as nat) && (forall|k: int|
            0 <= k < N_OUTPUTS ==> #[trigger] ci.out_values@[k] == 0) && (forall|k: int|
            0 <= k < N_OUTPUTS ==> (#[trigger] ci.out_script_hashes@[k])@ == zero_bytes(
                SCRIPT_HASH_BYTES as nat,
            )) && ci.tx_id_hi == leaf_of_id(txid@).hi && ci.tx_id_lo == leaf_of_id(txid@).lo
            && ci.merkle_proof.wf(MERKLE_DEPTH as nat) && ci.merkle_proof.root == root_of(
            padded(leaves_of_ids(block_txids@), MERKLE_DEPTH as nat),
        ) && fold_path(
            leaves_of_ids(block_txids@)[spec_index_of(ids_view(block_txids@), txid@)],
            ci.merkle_proof.siblings@,
            ci.merkle_proof.dirs@,
        ) == ci.merkle_proof.root),
{
    let index = index_of_txid(block_txids, txid);
    let mut leaves: Vec<Node> = Vec::new();
    let mut i: usize = 0;
    while i < block_txids.len()
        invariant
            i <= block_txids@.len(),
            leaves@.len() == i,
            forall|j: int| 0 <= j < i ==> #[trigger] leaves@[j] == leaf_of_id(block_txids@[j]@),
        decreases block_txids@.len() - i,
    {
        let n = node_from_id(&block_txids[i]);
        leaves.push(n);
        i = i + 1;
    }
    proof {
        assert(leaves@ =~= leaves_of_ids(block_txids@));
        lemma2_to64();
    }
    let merkle_proof = match build_merkle_proof(&leaves, index, MERKLE_DEPTH) {
        Ok(p) => p,
        Err(e) => {
            return Err(e);
        },
    };
    let empty_outputs: Vec<OutputSlot> = Vec::new();
    let empty_memo: Vec<u8> = Vec::new();
    let r = assemble(raw_tx, txid, &empty_outputs, &empty_memo, merkle_proof);
    proof {
        assert(normalized(Seq::<u8>::empty(), N_MEMO_BYTES as nat) =~= zero_bytes(
            N_MEMO_BYTES as nat,
        ));
    }
    r
}

} // verus!
