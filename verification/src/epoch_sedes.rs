//! The summary that the epoch accumulator keeps of one block.

use vstd::prelude::*;
use vstd::std_specs::cmp::PartialEqSpecImpl;
use crate::codec::{bounded, FixedWidth};
use crate::merkle::{
    chunks_of, collide, digest_collision, hash_node, lemma_list_root_injective, list_root,
    merkle_list_root, node_digest, two_pow,
};
use crate::primitives::{append_chunk, lemma_chunk_of, read_chunk, H256, U256};

verus! {

/// The number of block summaries that fill an epoch.
pub const EPOCH_CAPACITY: usize = 2048;

/// The height of the tree over the summaries of an epoch:
/// `two_pow(11)` is 2048.
pub const EPOCH_TREE_HEIGHT: usize = 11;

/// The summary of one block: its hash and the total difficulty of the chain
/// up to it.
#[derive(Clone, Copy, Debug)]
pub struct EpochSede {
    pub block_hash: H256,
    pub total_difficulty: U256,
}

impl EpochSede {
    pub fn new(total_difficulty: U256, block_hash: H256) -> (record: EpochSede)
        ensures
            record.block_hash == block_hash,
            record.total_difficulty == total_difficulty,
    {
        EpochSede { block_hash, total_difficulty }
    }

    /// The 64 bytes of a summary: the block hash, then the total difficulty
    /// with its least significant byte first.
    pub open spec fn encoding(&self) -> Seq<u8> {
        self.block_hash@ + self.total_difficulty@
    }

    /// The leaf that stands for a summary in the tree of its epoch: the
    /// digest of its two halves.
    pub open spec fn root(&self) -> Seq<u8> {
        node_digest(self.block_hash@, self.total_difficulty@)
    }

    /// The leaf that stands for this summary in the tree of its epoch.
    pub fn tree_hash_root(&self) -> (leaf: H256)
        ensures
            leaf@ == self.root(),
    {
        let difficulty = H256(self.total_difficulty.0);
        hash_node(&self.block_hash, &difficulty)
    }

    /// Summaries with the same two halves are the same summary.
    pub proof fn lemma_halves_injective(a: EpochSede, b: EpochSede)
        requires
            a.block_hash@ == b.block_hash@,
            a.total_difficulty@ == b.total_difficulty@,
        ensures
            a == b,
    {
        assert(a.block_hash.0 =~= b.block_hash.0);
        assert(a.total_difficulty.0 =~= b.total_difficulty.0);
    }
}

impl PartialEq for EpochSede {
    fn eq(&self, other: &EpochSede) -> (r: bool) {
        self.block_hash == other.block_hash && self.total_difficulty == other.total_difficulty
    }
}

impl Eq for EpochSede {}

impl PartialEqSpecImpl for EpochSede {
    open spec fn obeys_eq_spec() -> bool {
        true
    }

    open spec fn eq_spec(&self, other: &EpochSede) -> bool {
        self.block_hash@ == other.block_hash@ && self.total_difficulty@ == other.total_difficulty@
    }
}

impl FixedWidth for EpochSede {
    open spec fn spec_width() -> nat {
        64
    }

    open spec fn spec_encode(&self) -> Seq<u8> {
        self.encoding()
    }

    proof fn lemma_byte_form(a: Self, b: Self) {
        if a.encoding() == b.encoding() {
            assert(a.block_hash@ =~= a.encoding().take(32));
            assert(b.block_hash@ =~= b.encoding().take(32));
            assert(a.total_difficulty@ =~= a.encoding().skip(32));
            assert(b.total_difficulty@ =~= b.encoding().skip(32));
            EpochSede::lemma_halves_injective(a, b);
        }
    }

    proof fn lemma_some_item(bytes: Seq<u8>) -> (item: Self) {
        let item = EpochSede {
            block_hash: H256(lemma_chunk_of(bytes.take(32), 32)),
            total_difficulty: U256(lemma_chunk_of(bytes.skip(32), 32)),
        };
        assert(item.encoding() =~= bytes);
        item
    }

    fn width() -> (w: usize) {
        64
    }

    fn append_to(&self, out: &mut Vec<u8>) {
        append_chunk(&self.block_hash.0, out);
        append_chunk(&self.total_difficulty.0, out);
        assert(final(out)@ =~= old(out)@ + self.encoding());
    }

    fn read_from(bytes: &Vec<u8>, at: usize) -> (item: Self) {
        let block_hash = H256(read_chunk(bytes, at));
        let total_difficulty = U256(read_chunk(bytes, at + 32));
        let item = EpochSede { block_hash, total_difficulty };
        assert(item.encoding() =~= bytes@.subrange(at as int, at + 64));
        item
    }
}

/// The leaves of the summaries of an epoch.
pub open spec fn record_roots(records: Seq<EpochSede>) -> Seq<Seq<u8>> {
    Seq::new(records.len(), |i: int| records[i].root())
}

/// The Merkle root of an epoch accumulator: that of the list of the leaves of
/// its first 2048 summaries, in a tree of 2048 leaves.
pub open spec fn epoch_root(records: Seq<EpochSede>) -> Seq<u8> {
    list_root(record_roots(bounded(records, EPOCH_CAPACITY as nat)), EPOCH_TREE_HEIGHT as nat)
}

/// The Merkle root of an epoch accumulator.
pub fn epoch_tree_root(records: &Vec<EpochSede>) -> (root: H256)
    ensures
        root@ == epoch_root(records@),
{
    let count = if records.len() <= EPOCH_CAPACITY {
        records.len()
    } else {
        EPOCH_CAPACITY
    };
    let ghost kept = bounded(records@, EPOCH_CAPACITY as nat);
    let mut leaves: Vec<H256> = Vec::new();
    let mut i: usize = 0;
    while i < count
        invariant
            i <= count <= records.len(),
            leaves.len() == i,
            forall|j: int| 0 <= j < i ==> leaves[j]@ == records[j].root(),
        decreases count - i,
    {
        leaves.push(records[i].tree_hash_root());
        i += 1;
    }
    proof {
        reveal_with_fuel(two_pow, 12);
        assert(chunks_of(leaves@) =~= record_roots(kept));
    }
    merkle_list_root(&leaves, EPOCH_TREE_HEIGHT)
}

/// Two epoch accumulators with the same summaries in the same order, byte
/// for byte, have the same root.
pub proof fn lemma_epoch_root_determined(a: Seq<EpochSede>, b: Seq<EpochSede>)
    requires
        a.len() == b.len(),
        forall|i: int| 0 <= i < a.len() ==> a[i].encoding() == b[i].encoding(),
    ensures
        epoch_root(a) == epoch_root(b),
{
    assert forall|i: int| 0 <= i < a.len() implies a[i] == b[i] by {
        EpochSede::lemma_byte_form(a[i], b[i]);
    }
    assert(a =~= b);
}

/// Two epoch accumulators that differ have different roots, unless the hash
/// function collides. They differ where one field of one summary differs,
/// where one has a summary more than the other, and where they have
/// different lengths.
pub proof fn lemma_epoch_root_sensitive(a: Seq<EpochSede>, b: Seq<EpochSede>)
    requires
        a.len() <= EPOCH_CAPACITY,
        b.len() <= EPOCH_CAPACITY,
        a != b,
    ensures
        epoch_root(a) != epoch_root(b) || digest_collision(),
{
    reveal_with_fuel(two_pow, 12);
    let (la, lb) = (record_roots(a), record_roots(b));
    if la == lb {
        assert(a.len() == b.len());
        if forall|i: int| 0 <= i < a.len() ==> a[i] == b[i] {
            assert(a =~= b);
        } else {
            let i = choose|i: int| 0 <= i < a.len() && a[i] != b[i];
            assert(la[i] == lb[i]);
            if a[i].block_hash@ == b[i].block_hash@ && a[i].total_difficulty@
                == b[i].total_difficulty@ {
                EpochSede::lemma_halves_injective(a[i], b[i]);
            }
            assert(collide(
                a[i].block_hash@,
                a[i].total_difficulty@,
                b[i].block_hash@,
                b[i].total_difficulty@,
            ));
        }
    } else {
        lemma_list_root_injective(la, lb, EPOCH_TREE_HEIGHT as nat);
    }
}

} // verus!
