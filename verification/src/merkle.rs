//! The Merkle tree over a payload's blocks: leaves and nodes are SHA-256 cut to four bytes.
use vstd::prelude::*;
use vstd::slice::slice_subrange;

use crate::bytes::push_bytes;
use crate::crypto::{hash4, sha256_of, truncated_hash};
use crate::transport::{block_at, block_count};
use vstd::arithmetic::div_mod::{lemma_fundamental_div_mod, lemma_fundamental_div_mod_converse};
use vstd::arithmetic::power2::{lemma2_to64, lemma_pow2_strictly_increases, lemma_pow2_unfold, pow2};

verus! {

/// The leaf hashes of a payload, one for each block.
pub open spec fn leaves_of(payload: Seq<u8>, block_size: int) -> Seq<Seq<u8>> {
    Seq::new(
        block_count(payload.len() as int, block_size) as nat,
        |i: int| truncated_hash(block_at(payload, block_size, i), 4),
    )
}

/// The views of a sequence of hashes.
pub open spec fn hash_views(hashes: Seq<[u8; 4]>) -> Seq<Seq<u8>> {
    Seq::new(hashes.len(), |i: int| hashes[i]@)
}

/// The largest power of two below `n`, for `n` of two or more.
pub open spec fn split_point(n: int) -> int
    decreases n,
{
    if n <= 2 {
        1
    } else {
        2 * split_point((n + 1) / 2)
    }
}

proof fn lemma_split_point(n: int)
    requires
        n >= 2,
    ensures
        1 <= split_point(n) < n,
        n <= 2 * split_point(n),
    decreases n,
{
    if n > 2 {
        lemma_split_point((n + 1) / 2);
    }
}

/// The hash of two nodes.
pub open spec fn node_hash(left: Seq<u8>, right: Seq<u8>) -> Seq<u8> {
    truncated_hash(left + right, 4)
}

/// The root over a list of leaves: the perfect tree over the largest power of two of them, joined
/// with the root over the rest. A single leaf is its own root, and no leaves have a root of zeros.
pub open spec fn root_of(leaves: Seq<Seq<u8>>) -> Seq<u8>
    decreases leaves.len(),
{
    if leaves.len() == 0 {
        seq![0u8, 0u8, 0u8, 0u8]
    } else if leaves.len() == 1 {
        leaves[0]
    } else {
        let k = split_point(leaves.len() as int);
        if 0 < k < leaves.len() {
            node_hash(root_of(leaves.take(k)), root_of(leaves.skip(k)))
        } else {
            seq![]
        }
    }
}

/// Hashes each block of a payload.
pub fn leaf_hashes(payload: &[u8], block_size: usize) -> (r: Vec<[u8; 4]>)
    requires
        block_size > 0,
    ensures
        hash_views(r@) == leaves_of(payload@, block_size as int),
{
    let len: usize = payload.len();
    let ghost bs: int = block_size as int;
    let mut leaves: Vec<[u8; 4]> = Vec::new();
    let mut pos: usize = 0;
    assert(0 * bs == 0) by (nonlinear_arith);
    while pos < len
        invariant
            len == payload@.len(),
            bs == block_size,
            bs > 0,
            pos <= len,
            pos == leaves@.len() * bs || pos == len && (leaves@.len() - 1) * bs < len
                <= leaves@.len() * bs,
            forall|i: int|
                0 <= i < leaves@.len() ==> (#[trigger] leaves@[i])@ == truncated_hash(
                    block_at(payload@, bs, i),
                    4,
                ),
        decreases len - pos,
    {
        let ghost k = leaves@.len() as int;
        let end: usize = if len - pos <= block_size {
            len
        } else {
            pos + block_size
        };
        let block = slice_subrange(payload, pos, end);
        assert((k + 1) * bs == k * bs + bs) by (nonlinear_arith);
        assert(block@ == block_at(payload@, bs, k));
        leaves.push(hash4(block));
        pos = end;
    }
    proof {
        let k = leaves@.len() as int;
        assert((k - 1) * bs == k * bs - bs) by (nonlinear_arith);
        let x = len + bs - 1;
        lemma_fundamental_div_mod_converse(x, bs, k, x - k * bs);
        assert(hash_views(leaves@) =~= leaves_of(payload@, bs));
    }
    leaves
}

fn root_of_range(leaves: &[[u8; 4]], from: usize, to: usize) -> (r: [u8; 4])
    requires
        from < to <= leaves@.len(),
    ensures
        r@ == root_of(hash_views(leaves@).subrange(from as int, to as int)),
    decreases to - from,
{
    let ghost all = hash_views(leaves@);
    let ghost range = all.subrange(from as int, to as int);
    let n: usize = to - from;
    if n == 1 {
        assert(range[0] == leaves@[from as int]@);
        return leaves[from];
    }
    let k: usize = split_at(n);
    proof {
        lemma_split_point(n as int);
        assert(range.take(k as int) =~= all.subrange(from as int, from + k));
        assert(range.skip(k as int) =~= all.subrange(from + k, to as int));
    }
    let left = root_of_range(leaves, from, from + k);
    let right = root_of_range(leaves, from + k, to);
    let mut pair: Vec<u8> = Vec::new();
    push_bytes(&mut pair, &left);
    push_bytes(&mut pair, &right);
    assert(pair@ =~= left@ + right@);
    hash4(pair.as_slice())
}

fn split_at(n: usize) -> (k: usize)
    requires
        n >= 2,
    ensures
        k == split_point(n as int),
    decreases n,
{
    if n <= 2 {
        1
    } else {
        let half: usize = n / 2 + n % 2;
        proof {
            lemma_split_point(half as int);
        }
        2 * split_at(half)
    }
}

/// The root over a list of leaves.
pub fn root(leaves: &[[u8; 4]]) -> (r: [u8; 4])
    ensures
        r@ == root_of(hash_views(leaves@)),
{
    if leaves.len() == 0 {
        let zero: [u8; 4] = [0u8, 0u8, 0u8, 0u8];
        assert(zero@ =~= seq![0u8, 0u8, 0u8, 0u8]);
        return zero;
    }
    let r = root_of_range(leaves, 0, leaves.len());
    assert(hash_views(leaves@).subrange(0, leaves@.len() as int) =~= hash_views(leaves@));
    r
}

/// The leaves of a payload are the first four digest bytes of its blocks in turn: there are as many
/// as it takes to cover the payload, and leaf `i` covers the bytes from `i * block_size` up to the
/// next multiple or the end.
pub proof fn law_leaves_cover_payload(payload: Seq<u8>, block_size: int, i: int)
    requires
        block_size > 0,
    ensures
        ({
            let leaves = leaves_of(payload, block_size);
            &&& (leaves.len() - 1) * block_size < payload.len() <= leaves.len() * block_size
            &&& 0 <= i < leaves.len() ==> {
                let start = i * block_size;
                let end = if start + block_size < payload.len() {
                    start + block_size
                } else {
                    payload.len() as int
                };
                let digest = sha256_of(payload.subrange(start, end));
                leaves[i] == seq![digest[0], digest[1], digest[2], digest[3]]
            }
        }),
{
    let x = payload.len() + block_size - 1;
    let q = block_count(payload.len() as int, block_size);
    lemma_fundamental_div_mod(x, block_size);
    assert(q >= 0) by (nonlinear_arith)
        requires
            q == x / block_size,
            x >= 0,
            block_size > 0,
    ;
    assert((q - 1) * block_size == block_size * q - block_size && q * block_size == block_size * q)
        by (nonlinear_arith);
    let leaves = leaves_of(payload, block_size);
    if 0 <= i < leaves.len() {
        let block = block_at(payload, block_size, i);
        let digest = sha256_of(block);
        assert(leaves[i] =~= seq![digest[0], digest[1], digest[2], digest[3]]);
    }
}

proof fn lemma_split_is_power(n: int, k: nat)
    requires
        pow2(k) < n <= 2 * pow2(k),
    ensures
        split_point(n) == pow2(k),
    decreases k,
{
    lemma2_to64();
    if k > 0 {
        lemma_pow2_unfold(k);
        if k > 1 {
            lemma_pow2_strictly_increases(1, k);
        }
        lemma_split_is_power((n + 1) / 2, (k - 1) as nat);
    }
}

/// The root over a full tree of `2^k` leaves followed by up to as many more is the hash of the two
/// parts' roots; a single leaf is its own root.
pub proof fn law_root_joins_parts(left: Seq<Seq<u8>>, right: Seq<Seq<u8>>, k: nat)
    requires
        left.len() == pow2(k),
        0 < right.len() <= left.len(),
    ensures
        ({
            let digest = sha256_of(root_of(left) + root_of(right));
            root_of(left + right) == seq![digest[0], digest[1], digest[2], digest[3]]
        }),
        root_of(seq![right[0]]) == right[0],
{
    let all = left + right;
    lemma_split_is_power(all.len() as int, k);
    lemma_split_point(all.len() as int);
    assert(all.take(left.len() as int) =~= left);
    assert(all.skip(left.len() as int) =~= right);
    let digest = sha256_of(root_of(left) + root_of(right));
    assert(root_of(all) =~= seq![digest[0], digest[1], digest[2], digest[3]]);
}

} // verus!
