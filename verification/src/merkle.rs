//! Merkle roots of bounded lists of 32-byte chunks.
//!
//! The tree has as many leaves as the list may ever hold, whatever it holds
//! now: leaves past the end of the list are zero chunks, and the length of the
//! list is hashed in above the root of the tree.

use vstd::prelude::*;
use crate::primitives::{le_bytes, le_bytes_32, lemma_le_bytes_injective, pow256, H256};

verus! {

/// The digest that the hash function gives for a left and a right chunk.
pub uninterp spec fn node_digest(left: Seq<u8>, right: Seq<u8>) -> Seq<u8>;

/// Hashes two chunks into their parent node.
///
/// Calls `tree_hash::merkle_root` on the 64 bytes of the two chunks. For two
/// leaves that function returns the SHA-256 digest of the 64 bytes, which
/// depends on nothing but those bytes; the contract gives the digest its name
/// and says no more about it.
#[verifier::external_body]
pub(crate) fn hash_node(left: &H256, right: &H256) -> (parent: H256)
    ensures
        parent@ == node_digest(left@, right@),
{
    H256(tree_hash::merkle_root(&[left.0, right.0].concat(), 0).0)
}

/// Two to the power `k`.
pub open spec fn two_pow(k: nat) -> nat
    decreases k,
{
    if k == 0 {
        1
    } else {
        2 * two_pow((k - 1) as nat)
    }
}

/// The chunk that stands for a leaf that holds nothing.
pub open spec fn zero_chunk() -> Seq<u8> {
    Seq::new(32, |i: int| 0u8)
}

/// The root of the tree of the given height over `leaves`, which fill its
/// leaves from the left; the leaves that are left over are zero chunks.
pub open spec fn tree_root(leaves: Seq<Seq<u8>>, height: nat) -> Seq<u8>
    decreases height,
{
    if height == 0 {
        if leaves.len() == 0 {
            zero_chunk()
        } else {
            leaves[0]
        }
    } else {
        let half = two_pow((height - 1) as nat) as int;
        let cut = if leaves.len() <= half {
            leaves.len() as int
        } else {
            half
        };
        node_digest(
            tree_root(leaves.take(cut), (height - 1) as nat),
            tree_root(leaves.skip(cut), (height - 1) as nat),
        )
    }
}

/// The chunk that carries the length of a list: its 32 little-endian bytes.
pub open spec fn length_chunk(len: nat) -> Seq<u8> {
    le_bytes(len, 32)
}

/// The root of a list that may hold up to `two_pow(height)` chunks: the root
/// of the tree over its chunks, hashed together with its length.
pub open spec fn list_root(leaves: Seq<Seq<u8>>, height: nat) -> Seq<u8> {
    node_digest(tree_root(leaves, height), length_chunk(leaves.len()))
}

/// The chunks of a sequence of hashes.
pub open spec fn chunks_of(hashes: Seq<H256>) -> Seq<Seq<u8>> {
    Seq::new(hashes.len(), |i: int| hashes[i]@)
}

/// Two different pairs of chunks with the same digest.
pub open spec fn collide(a: Seq<u8>, b: Seq<u8>, c: Seq<u8>, d: Seq<u8>) -> bool {
    (a != c || b != d) && node_digest(a, b) == node_digest(c, d)
}

/// The hash function maps two different pairs of chunks to one digest.
pub open spec fn digest_collision() -> bool {
    exists|a: Seq<u8>, b: Seq<u8>, c: Seq<u8>, d: Seq<u8>| collide(a, b, c, d)
}

proof fn lemma_two_pow_positive(k: nat)
    ensures
        two_pow(k) >= 1,
    decreases k,
{
    if k > 0 {
        lemma_two_pow_positive((k - 1) as nat);
    }
}

proof fn lemma_two_pow_monotonic(j: nat, k: nat)
    requires
        j <= k,
    ensures
        two_pow(j) <= two_pow(k),
    decreases k,
{
    if j < k {
        lemma_two_pow_monotonic(j, (k - 1) as nat);
    }
}

/// The roots of the trees that hold nothing, by height, up to `height`.
fn empty_roots(height: usize) -> (zeros: Vec<H256>)
    requires
        height < usize::MAX,
    ensures
        zeros.len() == height + 1,
        forall|h: int| 0 <= h <= height ==> zeros[h]@ == tree_root(Seq::empty(), h as nat),
{
    let mut zeros: Vec<H256> = Vec::new();
    zeros.push(H256::zero());
    let mut h: usize = 0;
    while h < height
        invariant
            h <= height < usize::MAX,
            zeros.len() == h + 1,
            forall|k: int| 0 <= k <= h ==> zeros[k]@ == tree_root(Seq::empty(), k as nat),
        decreases height - h,
    {
        let below = zeros[h];
        let next = hash_node(&below, &below);
        proof {
            let none = Seq::<Seq<u8>>::empty();
            assert(none.take(0) =~= none);
            assert(none.skip(0) =~= none);
        }
        zeros.push(next);
        h += 1;
    }
    zeros
}

/// The root of the tree of the given height over `leaves[start..end]`.
fn subtree_root(
    leaves: &Vec<H256>,
    start: usize,
    end: usize,
    height: usize,
    width: usize,
    zeros: &Vec<H256>,
) -> (root: H256)
    requires
        start <= end <= leaves.len(),
        end - start <= width,
        width == two_pow(height as nat),
        height < zeros.len(),
        forall|h: int| 0 <= h < zeros.len() ==> zeros[h]@ == tree_root(Seq::empty(), h as nat),
    ensures
        root@ == tree_root(chunks_of(leaves@).subrange(start as int, end as int), height as nat),
    decreases height,
{
    let ghost part = chunks_of(leaves@).subrange(start as int, end as int);
    if start == end {
        assert(part =~= Seq::empty());
        zeros[height]
    } else if height == 0 {
        leaves[start]
    } else {
        let half = width / 2;
        let mid = if end - start <= half {
            end
        } else {
            start + half
        };
        let left = subtree_root(leaves, start, mid, height - 1, half, zeros);
        let right = subtree_root(leaves, mid, end, height - 1, half, zeros);
        proof {
            let cut = mid - start;
            assert(part.take(cut) =~= chunks_of(leaves@).subrange(start as int, mid as int));
            assert(part.skip(cut) =~= chunks_of(leaves@).subrange(mid as int, end as int));
        }
        hash_node(&left, &right)
    }
}

/// Two to the power `height`.
fn width_of(height: usize) -> (width: usize)
    requires
        height <= 31,
    ensures
        width == two_pow(height as nat),
{
    let mut width: usize = 1;
    let mut h: usize = 0;
    while h < height
        invariant
            h <= height <= 31,
            width == two_pow(h as nat),
        decreases height - h,
    {
        proof {
            lemma_two_pow_monotonic((h + 1) as nat, 31);
            reveal_with_fuel(two_pow, 32);
        }
        width = width * 2;
        h += 1;
    }
    width
}

/// The Merkle root of a list of chunks that may hold up to `two_pow(height)`
/// of them.
pub fn merkle_list_root(leaves: &Vec<H256>, height: usize) -> (root: H256)
    requires
        height <= 31,
        leaves.len() <= two_pow(height as nat),
    ensures
        root@ == list_root(chunks_of(leaves@), height as nat),
{
    let zeros = empty_roots(height);
    let width = width_of(height);
    let tree = subtree_root(leaves, 0, leaves.len(), height, width, &zeros);
    let length = H256(le_bytes_32(leaves.len() as u64));
    assert(chunks_of(leaves@).subrange(0, leaves.len() as int) =~= chunks_of(leaves@));
    hash_node(&tree, &length)
}

/// Two lists of one length that differ have different tree roots, unless the
/// hash function collides.
pub proof fn lemma_tree_root_injective(a: Seq<Seq<u8>>, b: Seq<Seq<u8>>, height: nat)
    requires
        a.len() == b.len(),
        a.len() <= two_pow(height),
        a != b,
    ensures
        tree_root(a, height) != tree_root(b, height) || digest_collision(),
    decreases height,
{
    if height == 0 {
        if a.len() == 0 {
            assert(a =~= b);
        } else {
            assert(a.len() == 1);
            if a[0] == b[0] {
                assert(a =~= b);
            }
        }
    } else {
        let below = (height - 1) as nat;
        let half = two_pow(below) as int;
        let cut = if a.len() <= half {
            a.len() as int
        } else {
            half
        };
        let (la, ra) = (a.take(cut), a.skip(cut));
        let (lb, rb) = (b.take(cut), b.skip(cut));
        let (xa, ya) = (tree_root(la, below), tree_root(ra, below));
        let (xb, yb) = (tree_root(lb, below), tree_root(rb, below));
        if tree_root(a, height) == tree_root(b, height) {
            if xa != xb || ya != yb {
                assert(collide(xa, ya, xb, yb));
            } else {
                lemma_two_pow_positive(below);
                if la != lb {
                    lemma_tree_root_injective(la, lb, below);
                } else if ra != rb {
                    lemma_tree_root_injective(ra, rb, below);
                } else {
                    assert(a =~= la + ra);
                    assert(b =~= lb + rb);
                }
            }
        }
    }
}

/// Two lists that differ, in what they hold or in how much, have different
/// roots, unless the hash function collides.
pub proof fn lemma_list_root_injective(a: Seq<Seq<u8>>, b: Seq<Seq<u8>>, height: nat)
    requires
        a.len() <= two_pow(height),
        b.len() <= two_pow(height),
        height <= 31,
        a != b,
    ensures
        list_root(a, height) != list_root(b, height) || digest_collision(),
{
    let (ta, tb) = (tree_root(a, height), tree_root(b, height));
    let (na, nb) = (length_chunk(a.len()), length_chunk(b.len()));
    if list_root(a, height) == list_root(b, height) {
        if ta != tb || na != nb {
            assert(collide(ta, na, tb, nb));
        } else {
            assert(a.len() == b.len()) by {
                lemma_two_pow_monotonic(height, 31);
                reveal_with_fuel(two_pow, 32);
                reveal_with_fuel(pow256, 33);
                lemma_le_bytes_injective(a.len(), b.len(), 32);
            }
            lemma_tree_root_injective(a, b, height);
        }
    }
}

} // verus!
