//! Proofs that every inclusion proof made from a tree verifies against the
//! tree's root.
use vstd::prelude::*;

use crate::merkle::{
    climb, fold_left_siblings, lemma_split_point_bounds, leaf_hash, leaf_hashes, node_hash, path_sum,
    split_point, tree_proof,
    tree_root, verify_spec, Climb, PathSum,
};
use vstd::arithmetic::div_mod::{lemma_basic_div, lemma_fundamental_div_mod, lemma_hoist_over_denominator};
use vstd::arithmetic::power2::{lemma2_to64, lemma_pow2_adds, lemma_pow2_pos, lemma_pow2_unfold, pow2};

verus! {

/// The block of `2^h` leaves that starts at leaf `c * 2^h`.
pub open spec fn block(leaves: Seq<Seq<u8>>, c: nat, h: nat) -> Seq<Seq<u8>> {
    leaves.subrange((c * pow2(h)) as int, ((c + 1) * pow2(h)) as int)
}

/// The aligned block of width `w` holding index `c * w + j` starts at
/// `c * w` plus the start of the block of `j`.
proof fn lemma_block_start(c: nat, w: nat, j: nat)
    requires
        w > 0,
    ensures
        ((c * w + j) as int / w as int) * w == c * w + (j as int / w as int) * w,
        (j as int / w as int) * w <= j,
{
    lemma_hoist_over_denominator(j as int, c as int, w);
    let q = j as int / w as int;
    assert((q + c) * w == q * w + c * w) by (nonlinear_arith);
    lemma_fundamental_div_mod(j as int, w as int);
    assert(q * w == w * q) by (nonlinear_arith);
}

/// A tree of `2^h` leaves splits into halves.
proof fn lemma_split_of_pow2(h: nat)
    requires
        h >= 1,
    ensures
        split_point(pow2(h)) == pow2((h - 1) as nat),
    decreases h,
{
    lemma2_to64();
    lemma_pow2_unfold(h);
    if h > 1 {
        lemma_pow2_unfold((h - 1) as nat);
        lemma_pow2_pos((h - 2) as nat);
        lemma_split_of_pow2((h - 1) as nat);
    }
}

/// The left subtree of a tree of `n >= 2` leaves has `2^h` leaves, with
/// `2^h < n <= 2^(h+1)`.
proof fn lemma_split_is_pow2(n: nat) -> (h: nat)
    requires
        n >= 2,
    ensures
        split_point(n) == pow2(h),
        pow2(h) < n <= 2 * pow2(h),
    decreases n,
{
    lemma2_to64();
    if n <= 2 {
        0
    } else {
        let m = ((n + 1) / 2) as nat;
        let h1 = lemma_split_is_pow2(m);
        lemma_pow2_unfold(h1 + 1);
        h1 + 1
    }
}

/// A proof in a tree of `2^h` leaves has `h` hashes.
proof fn lemma_perfect_proof_len(leaves: Seq<Seq<u8>>, h: nat, j: nat)
    requires
        leaves.len() == pow2(h),
        j < pow2(h),
    ensures
        tree_proof(leaves, j).len() == h,
    decreases h,
{
    lemma2_to64();
    if h > 0 {
        lemma_pow2_unfold(h);
        lemma_split_of_pow2(h);
        lemma_pow2_pos((h - 1) as nat);
        let half = pow2((h - 1) as nat);
        if j < half {
            lemma_perfect_proof_len(leaves.subrange(0, half as int), (h - 1) as nat, j);
        } else {
            lemma_perfect_proof_len(
                leaves.subrange(half as int, leaves.len() as int),
                (h - 1) as nat,
                (j - half) as nat,
            );
        }
    }
}

/// Climbing from a leaf of a complete block of `2^h` leaves, with the
/// block's proof at the start of `q`, reaches the block's root at height
/// `h + 1`.
proof fn lemma_perfect_climb(leaves: Seq<Seq<u8>>, c: nat, h: nat, j: nat, q: Seq<Seq<u8>>)
    requires
        (c + 1) * pow2(h) <= leaves.len(),
        4 * leaves.len() <= u64::MAX,
        j < pow2(h),
        h <= q.len(),
        q.subrange(0, h as int) == tree_proof(block(leaves, c, h), j),
    ensures
        climb(
            leaves[(c * pow2(h) + j) as int],
            q,
            c * pow2(h) + j,
            leaves.len(),
            1,
            2,
            c * pow2(h) + j,
        ) == climb(
            tree_root(block(leaves, c, h)),
            q,
            c * pow2(h) + j,
            leaves.len(),
            h + 1,
            pow2(h + 1),
            (c * pow2(h) + pow2(h) - 1) as nat,
        ),
    decreases h,
{
    lemma2_to64();
    let n = leaves.len();
    let w = pow2(h);
    let g = c * w + j;
    let b = block(leaves, c, h);
    lemma_pow2_pos(h);
    assert(c * w + w == (c + 1) * w) by (nonlinear_arith);
    if h == 0 {
        assert(b.len() == 1);
        assert(b[0] == leaves[g as int]);
    } else {
        lemma_pow2_unfold(h);
        lemma_pow2_unfold(h + 1);
        lemma_split_of_pow2(h);
        let hh = (h - 1) as nat;
        let half = pow2(hh);
        lemma_pow2_pos(hh);
        assert(b.len() == w);
        let b0 = b.subrange(0, half as int);
        let b1 = b.subrange(half as int, w as int);
        assert(tree_root(b) == node_hash(tree_root(b0), tree_root(b1)));
        let top_start = c * w;
        lemma_block_start(c, w, j);
        lemma_basic_div(j as int, w as int);
        assert(((g as int) / (w as int)) * w == top_start);
        if j < half {
            let c2 = 2 * c;
            assert(c2 * half == c * w) by (nonlinear_arith)
                requires
                    c2 == 2 * c,
                    w == 2 * half,
            ;
            assert((c2 + 1) * half == c * w + half) by (nonlinear_arith)
                requires
                    c2 == 2 * c,
                    w == 2 * half,
            ;
            assert(block(leaves, c2, hh) =~= b0);
            lemma_perfect_proof_len(b0, hh, j);
            assert(tree_proof(b, j) == tree_proof(b0, j).push(tree_root(b1)));
            assert(q.subrange(0, hh as int) =~= q.subrange(0, h as int).subrange(0, hh as int));
            assert(q.subrange(0, hh as int) =~= tree_proof(b0, j));
            assert(q[hh as int] == q.subrange(0, h as int)[hh as int]);
            assert(q[hh as int] == tree_root(b1));
            assert((c2 + 1) * half <= n) by (nonlinear_arith)
                requires
                    (c2 + 1) * half == c * w + half,
                    c * w + w <= n,
                    half <= w,
            ;
            lemma_perfect_climb(leaves, c2, hh, j, q);
            assert(c2 * half + j == g);
        } else {
            let c2 = 2 * c + 1;
            let j2 = (j - half) as nat;
            assert(c2 * half == c * w + half) by (nonlinear_arith)
                requires
                    c2 == 2 * c + 1,
                    w == 2 * half,
            ;
            assert((c2 + 1) * half == c * w + w) by (nonlinear_arith)
                requires
                    c2 == 2 * c + 1,
                    w == 2 * half,
            ;
            assert(block(leaves, c2, hh) =~= b1);
            lemma_perfect_proof_len(b1, hh, j2);
            assert(tree_proof(b, j) == tree_proof(b1, j2).push(tree_root(b0)));
            assert(q.subrange(0, hh as int) =~= q.subrange(0, h as int).subrange(0, hh as int));
            assert(q.subrange(0, hh as int) =~= tree_proof(b1, j2));
            assert(q[hh as int] == q.subrange(0, h as int)[hh as int]);
            assert(q[hh as int] == tree_root(b0));
            lemma_perfect_climb(leaves, c2, hh, j2, q);
            assert(c2 * half + j2 == g);
        }
    }
}

/// Folding a proof with one more hash at its end puts that hash on the
/// left of the result.
proof fn lemma_fold_push(sum: Seq<u8>, p: Seq<Seq<u8>>, x: Seq<u8>, j: nat)
    requires
        j <= p.len(),
    ensures
        fold_left_siblings(sum, p.push(x), j) == node_hash(x, fold_left_siblings(sum, p, j)),
    decreases p.len() - j,
{
    let px = p.push(x);
    if j < p.len() {
        assert(px[j as int] == p[j as int]);
        lemma_fold_push(node_hash(p[j as int], sum), p, x, j + 1);
        assert(fold_left_siblings(sum, px, j) == fold_left_siblings(
            node_hash(p[j as int], sum),
            px,
            j + 1,
        ));
        assert(fold_left_siblings(sum, p, j) == fold_left_siblings(
            node_hash(p[j as int], sum),
            p,
            j + 1,
        ));
    } else {
        assert(px[j as int] == x);
        assert(fold_left_siblings(sum, px, j) == fold_left_siblings(node_hash(x, sum), px, j + 1));
        assert(fold_left_siblings(node_hash(x, sum), px, j + 1) == node_hash(x, sum));
        assert(fold_left_siblings(sum, p, j) == sum);
    }
}

/// Climbing in the right part of a tree whose left part has `2^hk` leaves
/// goes as climbing in the right part alone, shifted by `2^hk`, while the
/// right part has fewer leaves than the left one.
proof fn lemma_shift_climb(
    sum: Seq<u8>,
    ql: Seq<Seq<u8>>,
    x: Seq<u8>,
    hk: nat,
    i: nat,
    m: nat,
    t: nat,
    e: nat,
)
    requires
        1 <= m < pow2(hk),
        i < m,
        4 * (pow2(hk) + m) <= u64::MAX,
        1 <= t <= hk,
        t - 1 <= ql.len(),
        e < m,
        climb(sum, ql, i, m, t, pow2(t), e) is Done,
    ensures
        climb(sum, ql, i, m, t, pow2(t), e) matches Climb::Done { sum: s, height, stable_end } ==> {
            &&& climb(sum, ql.push(x), pow2(hk) + i, pow2(hk) + m, t, pow2(t), pow2(hk) + e)
                == (Climb::Done { sum: s, height, stable_end: pow2(hk) + stable_end })
            &&& t <= height
            &&& height - 1 <= ql.len()
            &&& stable_end < m
        },
    decreases hk - t,
{
    let k = pow2(hk);
    let w = pow2(t);
    let c = pow2((hk - t) as nat);
    lemma_pow2_adds((hk - t) as nat, t);
    assert(k == c * w);
    lemma_pow2_pos(t);
    lemma_block_start(c, w, i);
    let start_l = (i as int / w as int) * w;
    assert(((k + i) as int / w as int) * w == k + start_l);
    lemma_pow2_pos((hk - t) as nat);
    assert(w <= k) by (nonlinear_arith)
        requires
            k == c * w,
            c >= 1,
    ;
    let q = ql.push(x);
    let local = climb(sum, ql, i, m, t, w, e);
    let global = climb(sum, q, k + i, k + m, t, w, k + e);
    if start_l + w - 1 >= m {
        assert(local == (Climb::Done { sum, height: t, stable_end: e }));
        assert(global == (Climb::Done { sum, height: t, stable_end: k + e }));
    } else {
        assert(ql.len() >= t);
        assert(q[t - 1] == ql[t - 1]);
        lemma_pow2_unfold(t + 1);
        if t == hk {
            assert(w == k);
        }
        assert(t < hk);
        let next = if i - start_l < w / 2 {
            node_hash(sum, ql[t - 1])
        } else {
            node_hash(ql[t - 1], sum)
        };
        let e2 = (start_l + w - 1) as nat;
        assert(2 * w <= u64::MAX);
        assert(local == climb(next, ql, i, m, t + 1, 2 * w, e2));
        assert(global == climb(next, q, k + i, k + m, t + 1, 2 * w, k + e2));
        lemma_shift_climb(next, ql, x, hk, i, m, t + 1, e2);
    }
}

/// Walking up a proof of the right part of a tree, with the left part's
/// root added at its end, gives the node over that root and what the walk
/// in the right part alone gives.
proof fn lemma_shift_path(leaf: Seq<u8>, ql: Seq<Seq<u8>>, x: Seq<u8>, hk: nat, i: nat, m: nat)
    requires
        hk >= 1,
        1 <= m < pow2(hk),
        i < m,
        4 * (pow2(hk) + m) <= u64::MAX,
        path_sum(leaf, ql, i, m) is Sum,
    ensures
        path_sum(leaf, ql.push(x), pow2(hk) + i, pow2(hk) + m) == PathSum::Sum(
            node_hash(x, path_sum(leaf, ql, i, m)->Sum_0),
        ),
{
    lemma2_to64();
    let k = pow2(hk);
    lemma_shift_climb(leaf, ql, x, hk, i, m, 1, i);
    let q = ql.push(x);
    match climb(leaf, ql, i, m, 1, 2, i) {
        Climb::Done { sum, height, stable_end } => {
            if stable_end != m - 1 {
                assert(ql.len() >= height);
                assert(q[height - 1] == ql[height - 1]);
                lemma_fold_push(node_hash(sum, ql[height - 1]), ql, x, height);
            } else {
                lemma_fold_push(sum, ql, x, (height - 1) as nat);
            }
        },
        _ => {},
    }
}

/// Walking up the proof of leaf `index` of a tree, from that leaf's hash,
/// reaches the tree's root.
proof fn lemma_proof_walks_to_root(leaves: Seq<Seq<u8>>, index: nat)
    requires
        1 <= leaves.len(),
        index < leaves.len(),
        4 * leaves.len() <= u64::MAX,
    ensures
        path_sum(leaves[index as int], tree_proof(leaves, index), index, leaves.len())
            == PathSum::Sum(tree_root(leaves)),
    decreases leaves.len(),
{
    lemma2_to64();
    let n = leaves.len();
    let q = tree_proof(leaves, index);
    if n == 1 {
        assert(q.len() == 0);
    } else {
        let hk = lemma_split_is_pow2(n);
        let k = pow2(hk);
        lemma_pow2_unfold(hk + 1);
        lemma_pow2_unfold(hk + 2);
        lemma_pow2_pos(hk);
        let p = leaves.subrange(0, k as int);
        let r = leaves.subrange(k as int, n as int);
        assert(tree_root(leaves) == node_hash(tree_root(p), tree_root(r)));
        if n == 2 * k {
            lemma_perfect_proof_len(leaves, hk + 1, index);
            assert(q.subrange(0, (hk + 1) as int) =~= q);
            assert(pow2(hk + 1) == n);
            assert((0nat + 1) * pow2(hk + 1) == n) by (nonlinear_arith)
                requires
                    pow2(hk + 1) == n,
            ;
            assert(0nat * pow2(hk + 1) == 0);
            assert(block(leaves, 0, hk + 1) =~= leaves);
            lemma_perfect_climb(leaves, 0, hk + 1, index, q);
            lemma_basic_div(index as int, pow2(hk + 2) as int);
        } else if index < k {
            lemma_perfect_proof_len(p, hk, index);
            assert(q == tree_proof(p, index).push(tree_root(r)));
            assert(q.subrange(0, hk as int) =~= tree_proof(p, index));
            assert((0nat + 1) * pow2(hk) == k);
            assert(0nat * pow2(hk) == 0);
            assert(block(leaves, 0, hk) =~= p);
            lemma_perfect_climb(leaves, 0, hk, index, q);
            lemma_basic_div(index as int, pow2(hk + 1) as int);
            assert(q[hk as int] == tree_root(r));
        } else {
            let m = (n - k) as nat;
            let i2 = (index - k) as nat;
            assert(q == tree_proof(r, i2).push(tree_root(p)));
            lemma_proof_walks_to_root(r, i2);
            assert(r[i2 as int] == leaves[index as int]);
            if hk == 0 {
                assert(k == 1);
            }
            lemma_shift_path(leaves[index as int], tree_proof(r, i2), tree_root(p), hk, i2, m);
        }
    }
}

/// Every proof made from a tree verifies: for the data of the leaves of a
/// tree, the proof of leaf `index` leads from that leaf's data to the root
/// of the tree. Trees whose indices, doubled twice, would not fit in a word
/// are left out.
pub proof fn lemma_tree_proofs_verify(data: Seq<Seq<u8>>, index: nat)
    requires
        index < data.len(),
        4 * data.len() <= u64::MAX,
    ensures
        verify_spec(
            tree_root(leaf_hashes(data)),
            data[index as int],
            tree_proof(leaf_hashes(data), index),
            index,
            data.len(),
        ) == Some(true),
{
    let leaves = leaf_hashes(data);
    assert(leaves[index as int] == leaf_hash(data[index as int]));
    lemma_proof_walks_to_root(leaves, index);
    if data.len() == 1 {
        assert(tree_root(leaves) == leaves[0]);
    } else {
        lemma_split_point_bounds(data.len());
        assert(tree_proof(leaves, index).len() > 0);
    }
}

} // verus!
