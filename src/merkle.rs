//! Verification of inclusion proofs of a binary Merkle tree.
use vstd::prelude::*;

use crate::types::{bytes32_eq, Bytes32};
use vstd::arithmetic::power2::{lemma2_to64, lemma_pow2_strictly_increases, lemma_pow2_unfold, pow2};

verus! {

/// The SHA-256 digest of `data`.
pub uninterp spec fn sha256_of(data: Seq<u8>) -> Seq<u8>;

/// Relies on `fuel_crypto::Hasher::hash`: the SHA-256 digest of `data`,
/// 32 bytes long.
#[verifier::external_body]
pub(crate) fn sha256(data: &[u8]) -> (r: Bytes32)
    ensures
        r@ == sha256_of(data@),
{
    *fuel_crypto::Hasher::hash(data)
}

/// Prefix of the preimage of a leaf hash.
pub const LEAF_PREFIX: u8 = 0;

/// Prefix of the preimage of an inner node hash.
pub const NODE_PREFIX: u8 = 1;

/// Hash of a leaf holding `data`.
pub open spec fn leaf_hash(data: Seq<u8>) -> Seq<u8> {
    sha256_of(seq![LEAF_PREFIX] + data)
}

/// Hash of an inner node with the children hashes `lhs` and `rhs`.
pub open spec fn node_hash(lhs: Seq<u8>, rhs: Seq<u8>) -> Seq<u8> {
    sha256_of(seq![NODE_PREFIX] + lhs + rhs)
}

/// Hash of a leaf holding `data`.
pub fn leaf_sum(data: &[u8]) -> (r: Bytes32)
    ensures
        r@ == leaf_hash(data@),
{
    let mut preimage: Vec<u8> = Vec::new();
    preimage.push(LEAF_PREFIX);
    let mut i: usize = 0;
    while i < data.len()
        invariant
            i <= data@.len(),
            preimage@ == seq![LEAF_PREFIX] + data@.subrange(0, i as int),
        decreases data@.len() - i,
    {
        preimage.push(data[i]);
        i = i + 1;
        assert(preimage@ =~= seq![LEAF_PREFIX] + data@.subrange(0, i as int));
    }
    assert(data@.subrange(0, data@.len() as int) =~= data@);
    sha256(preimage.as_slice())
}

/// Hash of an inner node with the children hashes `lhs` and `rhs`.
pub fn node_sum(lhs: &Bytes32, rhs: &Bytes32) -> (r: Bytes32)
    ensures
        r@ == node_hash(lhs@, rhs@),
{
    let mut preimage: Vec<u8> = Vec::new();
    preimage.push(NODE_PREFIX);
    let mut i: usize = 0;
    while i < 32
        invariant
            i <= 32,
            lhs@.len() == 32,
            preimage@ == seq![NODE_PREFIX] + lhs@.subrange(0, i as int),
        decreases 32 - i,
    {
        preimage.push(lhs[i]);
        i = i + 1;
        assert(preimage@ =~= seq![NODE_PREFIX] + lhs@.subrange(0, i as int));
    }
    assert(lhs@.subrange(0, 32) =~= lhs@);
    let mut j: usize = 0;
    while j < 32
        invariant
            j <= 32,
            lhs@.len() == 32,
            rhs@.len() == 32,
            preimage@ == seq![NODE_PREFIX] + lhs@ + rhs@.subrange(0, j as int),
        decreases 32 - j,
    {
        preimage.push(rhs[j]);
        j = j + 1;
        assert(preimage@ =~= seq![NODE_PREFIX] + lhs@ + rhs@.subrange(0, j as int));
    }
    assert(rhs@.subrange(0, 32) =~= rhs@);
    sha256(preimage.as_slice())
}

/// Where the climb through the complete subtrees above a leaf stops.
pub enum Climb {
    /// An index of the tree does not fit in a word.
    Overflow,
    /// The proof has fewer hashes than the complete subtrees need.
    Short,
    /// The climb reached the largest complete subtree holding the leaf:
    /// `sum` is its hash, `height` one more than its height, and
    /// `stable_end` the index of its last leaf.
    Done { sum: Seq<u8>, height: nat, stable_end: nat },
}

/// Climbs from the complete subtree of height `height - 1` holding leaf
/// `index`, whose hash is `sum` and whose last leaf is `stable_end`, through
/// each larger complete subtree of a tree of `num_leaves` leaves; `width`
/// is the number of leaves of the subtree of height `height`. The sibling of
/// each step is the hash `proof[height - 1]`.
pub open spec fn climb(
    sum: Seq<u8>,
    proof: Seq<Seq<u8>>,
    index: nat,
    num_leaves: nat,
    height: nat,
    width: nat,
    stable_end: nat,
) -> Climb
    decreases u64::MAX - width,
{
    let start: int = (index as int / width as int) * width;
    if width == 0 || width > u64::MAX || start + width > u64::MAX {
        Climb::Overflow
    } else if start + width - 1 >= num_leaves {
        Climb::Done { sum, height, stable_end }
    } else if proof.len() < height {
        Climb::Short
    } else {
        let sibling = proof[height - 1];
        let next = if index - start < width / 2 {
            node_hash(sum, sibling)
        } else {
            node_hash(sibling, sum)
        };
        if 2 * width > u64::MAX {
            Climb::Overflow
        } else {
            climb(
                next,
                proof,
                index,
                num_leaves,
                height + 1,
                2 * width,
                (start + width - 1) as nat,
            )
        }
    }
}

/// Combines `sum` with each hash of `proof` from position `k` on, every hash
/// standing on the left.
pub open spec fn fold_left_siblings(sum: Seq<u8>, proof: Seq<Seq<u8>>, k: nat) -> Seq<u8>
    decreases proof.len() - k,
{
    if k >= proof.len() {
        sum
    } else {
        fold_left_siblings(node_hash(proof[k as int], sum), proof, k + 1)
    }
}

/// What walking up a proof yields.
pub enum PathSum {
    /// An index of the tree does not fit in a word.
    Overflow,
    /// The proof has fewer hashes than the walk needs.
    Short,
    /// The hash reached at the top.
    Sum(Seq<u8>),
}

/// Walks up from `leaf`, the hash of leaf `index` of a tree of `num_leaves`
/// leaves, through the hashes of `proof`: first through the complete
/// subtrees holding the leaf (`climb`); then, unless the largest of them
/// ends the tree, once with the next hash on the right; then with each
/// remaining hash on the left.
pub open spec fn path_sum(leaf: Seq<u8>, proof: Seq<Seq<u8>>, index: nat, num_leaves: nat) -> PathSum {
    match climb(leaf, proof, index, num_leaves, 1, 2, index) {
        Climb::Overflow => PathSum::Overflow,
        Climb::Short => PathSum::Short,
        Climb::Done { sum, height, stable_end } => {
            if stable_end != num_leaves - 1 {
                if proof.len() < height {
                    PathSum::Short
                } else {
                    PathSum::Sum(
                        fold_left_siblings(node_hash(sum, proof[height - 1]), proof, height),
                    )
                }
            } else {
                PathSum::Sum(fold_left_siblings(sum, proof, (height - 1) as nat))
            }
        },
    }
}

/// What the verification of an inclusion proof yields: `Some(true)` when the
/// proof leads from the leaf holding `data` at `index` to `root`,
/// `Some(false)` when it does not, and `None` when an index of the tree does
/// not fit in a word.
pub open spec fn verify_spec(
    root: Seq<u8>,
    data: Seq<u8>,
    proof: Seq<Seq<u8>>,
    index: nat,
    num_leaves: nat,
) -> Option<bool> {
    let leaf = leaf_hash(data);
    if index >= num_leaves {
        Some(false)
    } else if proof.len() == 0 {
        Some(num_leaves == 1 && root == leaf)
    } else {
        match path_sum(leaf, proof, index, num_leaves) {
            PathSum::Overflow => None,
            PathSum::Short => Some(false),
            PathSum::Sum(sum) => Some(sum == root),
        }
    }
}

/// The hashes of a proof set as sequences of bytes.
pub open spec fn proof_view(proof_set: Seq<Bytes32>) -> Seq<Seq<u8>> {
    proof_set.map_values(|p: Bytes32| p@)
}

/// Verifies that the leaf holding `data` at `proof_index`, in a tree of
/// `num_leaves` leaves, belongs to the tree with the root `root`, by the
/// sibling hashes of `proof_set`, listed from the leaf up.
pub fn verify(
    root: &Bytes32,
    data: &[u8],
    proof_set: &Vec<Bytes32>,
    proof_index: u64,
    num_leaves: u64,
) -> (r: Option<bool>)
    ensures
        r == verify_spec(
            root@,
            data@,
            proof_view(proof_set@),
            proof_index as nat,
            num_leaves as nat,
        ),
        proof_index >= num_leaves ==> r == Some(false),
        num_leaves == 0 ==> r == Some(false),
        num_leaves == 1 && proof_index == 0 && proof_set@.len() == 0 ==> r == Some(
            root@ == leaf_hash(data@),
        ),
{
    let ghost proof = proof_view(proof_set@);
    let mut sum = leaf_sum(data);
    let ghost leaf = sum@;

    if proof_index >= num_leaves {
        return Some(false);
    }
    if proof_set.len() == 0 {
        return Some(num_leaves == 1 && bytes32_eq(root, &sum));
    }
    let mut height: usize = 1;
    let mut width: u64 = 2;
    proof {
        lemma2_to64();
    }
    let mut stable_end: u64 = proof_index;

    loop
        invariant
            proof == proof_view(proof_set@),
            leaf == leaf_hash(data@),
            proof_index < num_leaves,
            proof_set@.len() > 0,
            1 <= height <= proof_set@.len() + 1,
            height < 64,
            width >= 2,
            width == pow2(height as nat),
            climb(leaf, proof, proof_index as nat, num_leaves as nat, 1, 2, proof_index as nat)
                == climb(
                sum@,
                proof,
                proof_index as nat,
                num_leaves as nat,
                height as nat,
                width as nat,
                stable_end as nat,
            ),
        ensures
            1 <= height <= proof_set@.len() + 1,
            height < 64,
            climb(leaf, proof, proof_index as nat, num_leaves as nat, 1, 2, proof_index as nat)
                == (Climb::Done { sum: sum@, height: height as nat, stable_end: stable_end as nat }),
        decreases u64::MAX - width,
    {
        let quotient = proof_index / width;
        assert(quotient * width <= proof_index) by (nonlinear_arith)
            requires
                quotient == proof_index / width,
                width > 0,
        ;
        let subtree_start = quotient * width;
        let ghost here = climb(
            sum@,
            proof,
            proof_index as nat,
            num_leaves as nat,
            height as nat,
            width as nat,
            stable_end as nat,
        );
        assert(subtree_start as int == (proof_index as int / width as int) * width);
        let subtree_end = match subtree_start.checked_add(width) {
            Some(x) => x - 1,
            None => {
                assert(here == Climb::Overflow);
                return None;
            },
        };
        if subtree_end >= num_leaves {
            assert(here == Climb::Done { sum: sum@, height: height as nat, stable_end: stable_end as nat });
            break ;
        }
        if proof_set.len() < height {
            assert(here == Climb::Short);
            return Some(false);
        }
        let proof_data = proof_set[height - 1];
        assert(proof[height - 1] == proof_data@);
        if proof_index - subtree_start < width / 2 {
            sum = node_sum(&sum, &proof_data);
        } else {
            sum = node_sum(&proof_data, &sum);
        }
        stable_end = subtree_end;
        width = match width.checked_mul(2) {
            Some(w) => w,
            None => return None,
        };
        height = height + 1;
        proof {
            lemma_pow2_unfold(height as nat);
            lemma2_to64();
            if height > 64 {
                lemma_pow2_strictly_increases(64, height as nat);
            }
        }
    }
    let leaf_index = num_leaves - 1;
    if stable_end != leaf_index {
        if proof_set.len() < height {
            return Some(false);
        }
        let proof_data = proof_set[height - 1];
        assert(proof[height - 1] == proof_data@);
        sum = node_sum(&sum, &proof_data);
        height = height + 1;
    }
    let mut k: usize = height - 1;
    let ghost target = fold_left_siblings(sum@, proof, k as nat);
    while k < proof_set.len()
        invariant
            proof == proof_view(proof_set@),
            k <= proof_set@.len(),
            fold_left_siblings(sum@, proof, k as nat) == target,
        decreases proof_set@.len() - k,
    {
        let proof_data = proof_set[k];
        assert(proof[k as int] == proof_data@);
        sum = node_sum(&proof_data, &sum);
        k = k + 1;
    }
    Some(bytes32_eq(&sum, root))
}

/// The size of the left subtree of a tree of `n` leaves: the largest power
/// of two below `n`.
pub open spec fn split_point(n: nat) -> nat
    decreases n,
{
    if n <= 2 {
        1
    } else {
        2 * split_point(((n + 1) / 2) as nat)
    }
}

/// The left subtree of a tree of `n >= 2` leaves holds at least one leaf
/// and fewer than `n`.
pub proof fn lemma_split_point_bounds(n: nat)
    requires
        n >= 2,
    ensures
        1 <= split_point(n) < n,
    decreases n,
{
    if n > 2 {
        lemma_split_point_bounds(((n + 1) / 2) as nat);
    }
}

/// The root of the tree whose leaves have the hashes `leaves`: the hash of
/// the empty input for no leaf, the leaf's hash for one, and otherwise the
/// node over the roots of the left subtree, as large as `split_point` says,
/// and of the right one.
pub open spec fn tree_root(leaves: Seq<Seq<u8>>) -> Seq<u8>
    decreases leaves.len(),
{
    let n = leaves.len();
    let k = split_point(n);
    if n == 0 {
        sha256_of(Seq::empty())
    } else if n == 1 {
        leaves[0]
    } else if 1 <= k < n {
        node_hash(tree_root(leaves.subrange(0, k as int)), tree_root(leaves.subrange(k as int, n as int)))
    } else {
        Seq::empty()
    }
}

/// The proof of leaf `index` of the tree whose leaves have the hashes
/// `leaves`: the roots of the siblings of the subtrees holding the leaf,
/// from the leaf up.
pub open spec fn tree_proof(leaves: Seq<Seq<u8>>, index: nat) -> Seq<Seq<u8>>
    decreases leaves.len(),
{
    let n = leaves.len();
    let k = split_point(n);
    if n <= 1 || !(1 <= k < n) {
        Seq::empty()
    } else if index < k {
        tree_proof(leaves.subrange(0, k as int), index).push(
            tree_root(leaves.subrange(k as int, n as int)),
        )
    } else {
        tree_proof(leaves.subrange(k as int, n as int), (index - k) as nat).push(
            tree_root(leaves.subrange(0, k as int)),
        )
    }
}

/// The hashes of the leaves holding `data`.
pub open spec fn leaf_hashes(data: Seq<Seq<u8>>) -> Seq<Seq<u8>> {
    data.map_values(|d: Seq<u8>| leaf_hash(d))
}

/// The hashes as sequences of bytes.
pub open spec fn hashes_view(hashes: Seq<Bytes32>) -> Seq<Seq<u8>> {
    hashes.map_values(|h: Bytes32| h@)
}

/// The data of the leaves as sequences of bytes.
pub open spec fn data_view(data: Seq<Vec<u8>>) -> Seq<Seq<u8>> {
    data.map_values(|d: Vec<u8>| d@)
}

/// The size of the left subtree of a tree of `n >= 2` leaves.
fn split(n: usize) -> (r: usize)
    requires
        n >= 2,
    ensures
        r == split_point(n as nat),
    decreases n,
{
    proof {
        lemma_split_point_bounds(n as nat);
    }
    if n <= 2 {
        1
    } else {
        proof {
            lemma_split_point_bounds(((n + 1) / 2) as nat);
        }
        2 * split((n - 1) / 2 + 1)
    }
}

/// The root of the subtree over the leaf hashes `hashes[lo..hi]`.
fn subtree_root(hashes: &Vec<Bytes32>, lo: usize, hi: usize) -> (r: Bytes32)
    requires
        lo < hi <= hashes@.len(),
    ensures
        r@ == tree_root(hashes_view(hashes@).subrange(lo as int, hi as int)),
    decreases hi - lo,
{
    let ghost leaves = hashes_view(hashes@).subrange(lo as int, hi as int);
    let n = hi - lo;
    if n == 1 {
        return hashes[lo];
    }
    let k = split(n);
    proof {
        lemma_split_point_bounds(n as nat);
        assert(leaves.subrange(0, k as int) =~= hashes_view(hashes@).subrange(lo as int, lo + k));
        assert(leaves.subrange(k as int, n as int) =~= hashes_view(hashes@).subrange(
            lo + k,
            hi as int,
        ));
    }
    let left = subtree_root(hashes, lo, lo + k);
    let right = subtree_root(hashes, lo + k, hi);
    node_sum(&left, &right)
}

/// The hashes of the leaves holding `data`.
pub fn leaf_sums(data: &Vec<Vec<u8>>) -> (r: Vec<Bytes32>)
    ensures
        r@.len() == data@.len(),
        hashes_view(r@) == leaf_hashes(data_view(data@)),
{
    let mut r: Vec<Bytes32> = Vec::new();
    let mut i: usize = 0;
    while i < data.len()
        invariant
            i <= data@.len(),
            r@.len() == i,
            hashes_view(r@) == leaf_hashes(data_view(data@)).subrange(0, i as int),
        decreases data@.len() - i,
    {
        let h = leaf_sum(data[i].as_slice());
        assert(data_view(data@)[i as int] == data@[i as int]@);
        assert(leaf_hashes(data_view(data@))[i as int] == leaf_hash(data_view(data@)[i as int]));
        r.push(h);
        i = i + 1;
        assert(hashes_view(r@) =~= leaf_hashes(data_view(data@)).subrange(0, i as int));
    }
    assert(leaf_hashes(data_view(data@)).subrange(0, i as int) =~= leaf_hashes(data_view(data@)));
    r
}

/// The root of the Merkle tree whose leaves hold `data`, in order.
pub fn merkle_root(data: &Vec<Vec<u8>>) -> (r: Bytes32)
    ensures
        r@ == tree_root(leaf_hashes(data_view(data@))),
{
    let hashes = leaf_sums(data);
    if hashes.len() == 0 {
        let empty: Vec<u8> = Vec::new();
        assert(empty@ =~= Seq::<u8>::empty());
        return sha256(empty.as_slice());
    }
    let r = subtree_root(&hashes, 0, hashes.len());
    assert(hashes_view(hashes@).subrange(0, hashes@.len() as int) =~= hashes_view(hashes@));
    r
}

/// The proof of leaf `index` of the subtree over `hashes[lo..hi]`.
fn subtree_proof(hashes: &Vec<Bytes32>, lo: usize, hi: usize, index: usize) -> (r: Vec<Bytes32>)
    requires
        lo < hi <= hashes@.len(),
    ensures
        hashes_view(r@) == tree_proof(
            hashes_view(hashes@).subrange(lo as int, hi as int),
            index as nat,
        ),
    decreases hi - lo,
{
    let ghost leaves = hashes_view(hashes@).subrange(lo as int, hi as int);
    let n = hi - lo;
    if n == 1 {
        let r: Vec<Bytes32> = Vec::new();
        assert(hashes_view(r@) =~= Seq::<Seq<u8>>::empty());
        return r;
    }
    let k = split(n);
    proof {
        lemma_split_point_bounds(n as nat);
        assert(leaves.subrange(0, k as int) =~= hashes_view(hashes@).subrange(lo as int, lo + k));
        assert(leaves.subrange(k as int, n as int) =~= hashes_view(hashes@).subrange(
            lo + k,
            hi as int,
        ));
    }
    if index < k {
        let mut r = subtree_proof(hashes, lo, lo + k, index);
        let sibling = subtree_root(hashes, lo + k, hi);
        r.push(sibling);
        assert(hashes_view(r@) =~= tree_proof(leaves, index as nat));
        r
    } else {
        let mut r = subtree_proof(hashes, lo + k, hi, index - k);
        let sibling = subtree_root(hashes, lo, lo + k);
        r.push(sibling);
        assert(hashes_view(r@) =~= tree_proof(leaves, index as nat));
        r
    }
}

/// The root of the Merkle tree whose leaves hold `data`, and the proof of
/// leaf `index`; `None` when there is no such leaf.
pub fn merkle_prove(data: &Vec<Vec<u8>>, index: u64) -> (r: Option<(Bytes32, Vec<Bytes32>)>)
    ensures
        r is Some <==> index < data@.len(),
        r matches Some(p) ==> p.0@ == tree_root(leaf_hashes(data_view(data@))) && hashes_view(p.1@)
            == tree_proof(leaf_hashes(data_view(data@)), index as nat),
{
    let hashes = leaf_sums(data);
    if index >= hashes.len() as u64 {
        return None;
    }
    let root = merkle_root(data);
    let proof = subtree_proof(&hashes, 0, hashes.len(), index as usize);
    assert(hashes_view(hashes@).subrange(0, hashes@.len() as int) =~= hashes_view(hashes@));
    Some((root, proof))
}

} // verus!
