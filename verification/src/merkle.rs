use crate::errors::WatcherError;
use crate::hashing::combine;
use crate::hashing::combine_of;
use crate::hashing::zero_node;
use crate::hashing::Node;
use vstd::arithmetic::div_mod::lemma_basic_div;
use vstd::arithmetic::div_mod::lemma_div_basics;
use vstd::arithmetic::div_mod::lemma_div_denominator;
use vstd::arithmetic::power2::lemma_pow2_pos;
use vstd::arithmetic::power2::lemma2_to64;
use vstd::arithmetic::power2::lemma_pow2_strictly_increases;
use vstd::arithmetic::power2::lemma_pow2_unfold;
use vstd::arithmetic::power2::pow2;
use vstd::prelude::*;

verus! {

/// A fixed-depth Merkle inclusion proof: one sibling and one direction bit
/// per level (0: the proven node is the left child, 1: the right child),
/// and the root they lead to.
#[derive(Debug)]
pub struct MerkleProof {
    pub siblings: Vec<Node>,
    pub dirs: Vec<u8>,
    pub root: Node,
}

impl MerkleProof {
    /// The shape every proof of depth `depth` has: `depth` siblings and
    /// `depth` direction bits, each bit 0 or 1.
    pub open spec fn wf(self, depth: nat) -> bool {
        &&& self.siblings@.len() == depth
        &&& self.dirs@.len() == depth
        &&& forall|k: int| 0 <= k < depth ==> #[trigger] self.dirs@[k] <= 1
    }
}

/// The parent level of a tree level: adjacent pairs combined left to right.
pub open spec fn next_level(level: Seq<Node>) -> Seq<Node> {
    Seq::new(level.len() / 2, |j: int| combine_of(level[2 * j], level[2 * j + 1]))
}

/// The root over a level whose width is a power of two, by repeated pairing.
pub open spec fn root_of(level: Seq<Node>) -> Node
    decreases level.len(),
{
    if level.len() == 0 {
        zero_node()
    } else if level.len() == 1 {
        level[0]
    } else {
        root_of(next_level(level))
    }
}

/// The tree level `k` pairings above a leaf level.
pub open spec fn level_of(leaves: Seq<Node>, k: nat) -> Seq<Node>
    decreases k,
{
    if k == 0 {
        leaves
    } else {
        next_level(level_of(leaves, (k - 1) as nat))
    }
}

/// The index of the sibling recorded at level `k` of a proof for the leaf
/// at `index`: the partner of the carried node within its pair.
pub open spec fn sibling_index(index: nat, k: nat) -> int {
    let i = (index / pow2(k)) as int;
    if i % 2 == 1 {
        i - 1
    } else {
        i + 1
    }
}

/// The leaf set padded on the right with zero nodes up to width 2^depth.
pub open spec fn padded(leaves: Seq<Node>, depth: nat) -> Seq<Node> {
    leaves + Seq::new((pow2(depth) - leaves.len()) as nat, |j: int| zero_node())
}

/// Recombining a leaf up its path: at each level the stored sibling stands
/// on the side its direction bit names (1: the carried node is the right
/// child).
pub open spec fn fold_path(leaf: Node, sibs: Seq<Node>, dirs: Seq<u8>) -> Node
    decreases sibs.len(),
{
    if sibs.len() == 0 {
        leaf
    } else {
        fold_path(
            if dirs[0] == 1 {
                combine_of(sibs[0], leaf)
            } else {
                combine_of(leaf, sibs[0])
            },
            sibs.drop_first(),
            dirs.drop_first(),
        )
    }
}

/// Extending a path at the top combines the folded value with the new
/// sibling, on the side the new direction bit names.
pub proof fn lemma_fold_path_push(leaf: Node, sibs: Seq<Node>, dirs: Seq<u8>, s: Node, d: u8)
    requires
        sibs.len() == dirs.len(),
    ensures
        fold_path(leaf, sibs.push(s), dirs.push(d)) == (if d == 1 {
            combine_of(s, fold_path(leaf, sibs, dirs))
        } else {
            combine_of(fold_path(leaf, sibs, dirs), s)
        }),
    decreases sibs.len(),
{
    if sibs.len() == 0 {
        let leaf2 = if d == 1 {
            combine_of(s, leaf)
        } else {
            combine_of(leaf, s)
        };
        assert(sibs.push(s).drop_first() =~= Seq::<Node>::empty());
        assert(dirs.push(d).drop_first() =~= Seq::<u8>::empty());
        assert(fold_path(leaf, sibs.push(s), dirs.push(d)) == fold_path(
            leaf2,
            Seq::<Node>::empty(),
            Seq::<u8>::empty(),
        ));
        assert(fold_path(leaf2, Seq::<Node>::empty(), Seq::<u8>::empty()) == leaf2);
    } else {
        let leaf2 = if dirs[0] == 1 {
            combine_of(sibs[0], leaf)
        } else {
            combine_of(leaf, sibs[0])
        };
        assert(sibs.push(s).drop_first() =~= sibs.drop_first().push(s));
        assert(dirs.push(d).drop_first() =~= dirs.drop_first().push(d));
        lemma_fold_path_push(leaf2, sibs.drop_first(), dirs.drop_first(), s, d);
    }
}

/// Computes 2 to the power `e`.
pub fn pow2_usize(e: usize) -> (r: usize)
    requires
        pow2(e as nat) <= usize::MAX,
    ensures
        r as nat == pow2(e as nat),
{
    let mut r: usize = 1;
    let mut k: usize = 0;
    proof {
        lemma2_to64();
    }
    while k < e
        invariant
            k <= e,
            r as nat == pow2(k as nat),
            pow2(e as nat) <= usize::MAX,
        decreases e - k,
    {
        proof {
            lemma_pow2_unfold((k + 1) as nat);
            if k + 1 < e {
                lemma_pow2_strictly_increases((k + 1) as nat, e as nat);
            }
        }
        r = r * 2;
        k = k + 1;
    }
    r
}

/// Builds the inclusion proof for `leaves[index]` in the perfect tree of
/// depth `depth` over the leaf set padded on the right with zero nodes. The
/// depth is a fixed system parameter, never computed from the leaf count: a
/// leaf set wider than the tree is refused as `ProofDepthExceeded`.
///
/// The proof always carries exactly `depth` siblings and `depth` direction
/// bits, the bits are the binary digits of `index` from the bottom level up,
/// and recombining the target leaf along them reproduces the stored root,
/// which is the root of the padded tree.
pub fn build_merkle_proof(leaves: &Vec<Node>, index: usize, depth: usize) -> (r: Result<
    MerkleProof,
    WatcherError,
>)
    requires
        index < leaves@.len(),
        pow2(depth as nat) <= usize::MAX,
    ensures
        leaves@.len() > pow2(depth as nat) ==> r == Err::<MerkleProof, WatcherError>(
            WatcherError::ProofDepthExceeded,
        ),
        leaves@.len() <= pow2(depth as nat) ==> (r matches Ok(p) && p.wf(depth as nat)
            && p.root == root_of(padded(leaves@, depth as nat)) && fold_path(
            leaves@[index as int],
            p.siblings@,
            p.dirs@,
        ) == p.root && (forall|k: int|
            0 <= k < depth ==> #[trigger] p.dirs@[k] == (index as nat / pow2(k as nat)) % 2) && (
        forall|k: int|
            0 <= k < depth ==> #[trigger] p.siblings@[k] == level_of(
                padded(leaves@, depth as nat),
                k as nat,
            )[sibling_index(index as nat, k as nat)])),
{
    let width = pow2_usize(depth);
    if leaves.len() > width {
        return Err(WatcherError::ProofDepthExceeded);
    }
    let ghost target = leaves@[index as int];
    let ghost padded0 = padded(leaves@, depth as nat);

    // Copy the leaves, then pad with zero nodes up to the tree width.
    let mut level: Vec<Node> = Vec::new();
    let mut i: usize = 0;
    while i < leaves.len()
        invariant
            i <= leaves@.len(),
            level@.len() == i,
            forall|j: int| 0 <= j < i ==> level@[j] == leaves@[j],
        decreases leaves@.len() - i,
    {
        level.push(leaves[i]);
        i = i + 1;
    }
    while level.len() < width
        invariant
            leaves@.len() <= level@.len() <= width,
            forall|j: int| 0 <= j < leaves@.len() ==> level@[j] == leaves@[j],
            forall|j: int| leaves@.len() <= j < level@.len() ==> level@[j] == zero_node(),
        decreases width - level.len(),
    {
        level.push(Node::zero());
    }
    proof {
        assert(level@ =~= padded0);
    }

    let mut sibs: Vec<Node> = Vec::new();
    let mut dirs: Vec<u8> = Vec::new();
    let mut cur: usize = index;
    let mut lvl: usize = 0;
    proof {
        lemma2_to64();
        lemma_div_basics(index as int);
    }
    while lvl < depth
        invariant
            lvl <= depth,
            pow2(depth as nat) <= usize::MAX,
            level@.len() == pow2((depth - lvl) as nat),
            cur as nat == index as nat / pow2(lvl as nat),
            cur < level@.len(),
            sibs@.len() == lvl,
            dirs@.len() == lvl,
            forall|k: int|
                0 <= k < lvl ==> #[trigger] dirs@[k] == (index as nat / pow2(k as nat)) % 2,
            level@ == level_of(padded0, lvl as nat),
            forall|k: int|
                0 <= k < lvl ==> #[trigger] sibs@[k] == level_of(padded0, k as nat)[sibling_index(
                    index as nat,
                    k as nat,
                )],
            fold_path(target, sibs@, dirs@) == level@[cur as int],
            root_of(level@) == root_of(padded0),
            target == leaves@[index as int],
            index < leaves@.len(),
            leaves@.len() <= pow2(depth as nat),
        decreases depth - lvl,
    {
        proof {
            lemma_pow2_unfold((depth - lvl) as nat);
            lemma_pow2_pos((depth - lvl - 1) as nat);
        }
        let full: usize = level.len();
        let half = full / 2;
        assert(level@.len() == 2 * half);

        let is_right = cur % 2 == 1;
        let sib_idx = if is_right {
            cur - 1
        } else {
            cur + 1
        };
        let sibling = level[sib_idx];
        let d: u8 = if is_right {
            1
        } else {
            0
        };
        proof {
            lemma_fold_path_push(target, sibs@, dirs@, sibling, d);
        }
        sibs.push(sibling);
        dirs.push(d);

        // Compute the parent level by pairing adjacent nodes.
        let mut next: Vec<Node> = Vec::new();
        let mut j: usize = 0;
        while j < half
            invariant
                j <= half,
                half == level@.len() / 2,
                level@.len() == 2 * half,
                level@.len() == full,
                next@.len() == j,
                forall|jj: int|
                    0 <= jj < j ==> #[trigger] next@[jj] == combine_of(
                        level@[2 * jj],
                        level@[2 * jj + 1],
                    ),
            decreases half - j,
        {
            let parent = combine(&level[2 * j], &level[2 * j + 1]);
            next.push(parent);
            j = j + 1;
        }
        proof {
            assert(next@ =~= next_level(level@));
            assert(level_of(padded0, (lvl + 1) as nat) == next_level(level_of(padded0, lvl as nat)));
            assert(sib_idx as int == sibling_index(index as nat, lvl as nat));
            lemma_pow2_pos(lvl as nat);
            lemma_div_denominator(index as int, pow2(lvl as nat) as int, 2);
            lemma_pow2_unfold((lvl + 1) as nat);
        }
        level = next;
        cur = cur / 2;
        lvl = lvl + 1;
    }
    proof {
        lemma2_to64();
        lemma_pow2_pos(depth as nat);
        lemma_basic_div(index as int, pow2(depth as nat) as int);
    }
    let root = level[0];
    Ok(MerkleProof { siblings: sibs, dirs, root })
}

/// Law: the proof is a function of the leaf set, the target index and the
/// depth alone — two proofs that meet the builder's guarantees for the same
/// inputs agree on every sibling, every direction bit, and the root. A
/// block's txid list re-sent on a later retry therefore yields the same
/// proof again.
pub proof fn lemma_build_deterministic(
    leaves: Seq<Node>,
    index: usize,
    depth: usize,
    p1: MerkleProof,
    p2: MerkleProof,
)
    requires
        p1.wf(depth as nat),
        p1.root == root_of(padded(leaves, depth as nat)),
        forall|k: int|
            0 <= k < depth ==> #[trigger] p1.dirs@[k] == (index as nat / pow2(k as nat)) % 2,
        forall|k: int|
            0 <= k < depth ==> #[trigger] p1.siblings@[k] == level_of(
                padded(leaves, depth as nat),
                k as nat,
            )[sibling_index(index as nat, k as nat)],
        p2.wf(depth as nat),
        p2.root == root_of(padded(leaves, depth as nat)),
        forall|k: int|
            0 <= k < depth ==> #[trigger] p2.dirs@[k] == (index as nat / pow2(k as nat)) % 2,
        forall|k: int|
            0 <= k < depth ==> #[trigger] p2.siblings@[k] == level_of(
                padded(leaves, depth as nat),
                k as nat,
            )[sibling_index(index as nat, k as nat)],
    ensures
        p1.siblings@ == p2.siblings@,
        p1.dirs@ == p2.dirs@,
        p1.root == p2.root,
{
    assert(p1.siblings@ =~= p2.siblings@);
    assert(p1.dirs@ =~= p2.dirs@);
}

/// Law: a proof built for `leaves[index]` verifies against that leaf and
/// that index. The hypotheses are exactly what `build_merkle_proof`
/// guarantees of a proof it returns; the conclusion is exactly the condition
/// under which `verify_merkle_proof` answers true for `leaves[index]` and
/// `index`.
pub proof fn lemma_build_then_verify(leaves: Seq<Node>, index: usize, depth: usize, p: MerkleProof)
    requires
        index < leaves.len(),
        leaves.len() <= pow2(depth as nat),
        p.wf(depth as nat),
        fold_path(leaves[index as int], p.siblings@, p.dirs@) == p.root,
        forall|k: int|
            0 <= k < depth ==> #[trigger] p.dirs@[k] == (index as nat / pow2(k as nat)) % 2,
    ensures
        p.siblings@.len() == p.dirs@.len(),
        forall|k: int|
            0 <= k < p.dirs@.len() ==> #[trigger] p.dirs@[k] == (index as nat / pow2(k as nat)) % 2,
        fold_path(leaves[index as int], p.siblings@, p.dirs@) == p.root,
{
}

/// Recomputes the root from a leaf, its index and its proof: the proof must
/// have one sibling per direction bit, the bits must be the binary digits of
/// `index`, and combining the leaf upward along them must reproduce the
/// stored root. Returns true exactly when all three hold.
pub fn verify_merkle_proof(pf: &MerkleProof, leaf: &Node, index: usize) -> (r: bool)
    ensures
        r == (pf.siblings@.len() == pf.dirs@.len() && (forall|k: int|
            0 <= k < pf.dirs@.len() ==> #[trigger] pf.dirs@[k] == (index as nat / pow2(
                k as nat,
            )) % 2) && fold_path(*leaf, pf.siblings@, pf.dirs@) == pf.root),
{
    if pf.siblings.len() != pf.dirs.len() {
        return false;
    }
    let n = pf.dirs.len();
    let mut acc: Node = *leaf;
    let mut idx = index;
    let mut k: usize = 0;
    proof {
        lemma2_to64();
        lemma_div_basics(index as int);
        assert(pf.siblings@.subrange(0, 0) =~= Seq::<Node>::empty());
        assert(pf.dirs@.subrange(0, 0) =~= Seq::<u8>::empty());
    }
    while k < n
        invariant
            k <= n,
            n == pf.siblings@.len(),
            n == pf.dirs@.len(),
            idx as nat == index as nat / pow2(k as nat),
            forall|kk: int|
                0 <= kk < k ==> #[trigger] pf.dirs@[kk] == (index as nat / pow2(kk as nat)) % 2,
            acc == fold_path(
                *leaf,
                pf.siblings@.subrange(0, k as int),
                pf.dirs@.subrange(0, k as int),
            ),
        decreases n - k,
    {
        let expected: u8 = if idx % 2 == 1 {
            1
        } else {
            0
        };
        if pf.dirs[k] != expected {
            return false;
        }
        proof {
            lemma_fold_path_push(
                *leaf,
                pf.siblings@.subrange(0, k as int),
                pf.dirs@.subrange(0, k as int),
                pf.siblings@[k as int],
                pf.dirs@[k as int],
            );
            assert(pf.siblings@.subrange(0, k + 1) =~= pf.siblings@.subrange(0, k as int)
                .push(pf.siblings@[k as int]));
            assert(pf.dirs@.subrange(0, k + 1) =~= pf.dirs@.subrange(0, k as int).push(
                pf.dirs@[k as int],
            ));
            lemma_pow2_pos(k as nat);
            lemma_div_denominator(index as int, pow2(k as nat) as int, 2);
            lemma_pow2_unfold((k + 1) as nat);
        }
        let s = pf.siblings[k];
        acc = if expected == 1 {
            combine(&s, &acc)
        } else {
            combine(&acc, &s)
        };
        idx = idx / 2;
        k = k + 1;
    }
    proof {
        assert(pf.siblings@.subrange(0, n as int) =~= pf.siblings@);
        assert(pf.dirs@.subrange(0, n as int) =~= pf.dirs@);
    }
    acc.hi == pf.root.hi && acc.lo == pf.root.lo
}

} // verus!
