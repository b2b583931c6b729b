//! The check of a stored accumulator: every root of the master accumulator
//! against the epoch that the store holds for it.

use vstd::prelude::*;
use crate::accumulator_trie::{stored_epoch, stored_master, AccumulatorTrie, AccumulatorTrieTrait};
use crate::codec::DecodeError;
use crate::epoch_sedes::{epoch_root, EpochSede};
use crate::primitives::H256;
use crate::trie::{opened, TrieTrait};

verus! {

/// What the check found.
#[derive(Debug)]
pub struct HashCheck {
    /// The number of summaries of each epoch that was looked at, from epoch
    /// one on.
    pub epoch_lengths: Vec<usize>,
    /// The first epoch whose root is not the one that the master accumulator
    /// has for it, if there is one.
    pub mismatch: Option<usize>,
}

impl HashCheck {
    /// Every root is the root of its epoch.
    pub fn is_all_hash_matched(&self) -> (matched: bool)
        ensures
            matched == self.mismatch is None,
    {
        self.mismatch.is_none()
    }
}

/// The store holds a list for the epoch, and its root is the one that the
/// master accumulator has for the epoch.
pub open spec fn epoch_matches<T: TrieTrait>(trie: T, master: Seq<H256>, epoch_number: int) -> bool {
    let epoch = stored_epoch(trie, epoch_number as usize);
    &&& 1 <= epoch_number <= master.len()
    &&& epoch is Ok
    &&& epoch_root(epoch->Ok_0) == master[epoch_number - 1]@
}

/// The store holds a list for the epoch, whose root is not the one that the
/// master accumulator has for the epoch.
pub open spec fn epoch_differs<T: TrieTrait>(trie: T, master: Seq<H256>, epoch_number: int) -> bool {
    let epoch = stored_epoch(trie, epoch_number as usize);
    &&& 1 <= epoch_number <= master.len()
    &&& epoch is Ok
    &&& epoch_root(epoch->Ok_0) != master[epoch_number - 1]@
}

/// The number of summaries that the store holds for an epoch.
pub open spec fn epoch_length<T: TrieTrait>(trie: T, epoch_number: int) -> int {
    stored_epoch(trie, epoch_number as usize)->Ok_0.len() as int
}

/// Every epoch before the given one has the root that the master accumulator
/// has for it.
pub open spec fn matches_before<T: TrieTrait>(trie: T, master: Seq<H256>, epoch_number: int) -> bool {
    forall|k: int| 1 <= k < epoch_number ==> epoch_matches(trie, master, k)
}

/// The blob of the epoch is no list, for the cause given, and every epoch
/// before it has the root that the master accumulator has for it.
pub open spec fn fails_at<T: TrieTrait>(
    trie: T,
    master: Seq<H256>,
    epoch_number: int,
    cause: DecodeError,
) -> bool {
    &&& 1 <= epoch_number <= master.len()
    &&& stored_epoch(trie, epoch_number as usize) == Err::<Seq<EpochSede>, DecodeError>(cause)
    &&& matches_before(trie, master, epoch_number)
}

/// Goes through the epochs of the master accumulator in order, up to the
/// first whose root is not the one that the master accumulator has for it.
///
/// A blob that is no list ends the check with the cause. Of the store only
/// this changes: the blob of the master accumulator and that of an epoch
/// looked at are created empty where they were missing.
pub fn check_hashes<T: TrieTrait>(accumulator_trie: &mut AccumulatorTrie<T>) -> (result: Result<
    HashCheck,
    DecodeError,
>)
    requires
        old(accumulator_trie).trie.well_formed(),
    ensures
        final(accumulator_trie).trie.well_formed(),
        final(accumulator_trie).epoch_size == old(accumulator_trie).epoch_size,
        final(accumulator_trie).trie.writes() == old(accumulator_trie).trie.writes(),
        opened(
            old(accumulator_trie).trie.master_blob(),
            final(accumulator_trie).trie.master_blob(),
        ),
        forall|n: usize|
            opened(
                old(accumulator_trie).trie.epoch_blob(n),
                final(accumulator_trie).trie.epoch_blob(n),
            ),
        match result {
            Ok(report) => {
                let trie = old(accumulator_trie).trie;
                let master = stored_master(trie);
                &&& master is Ok
                &&& match report.mismatch {
                    None => {
                        &&& report.epoch_lengths.len() == master->Ok_0.len()
                        &&& matches_before(trie, master->Ok_0, master->Ok_0.len() as int + 1)
                    },
                    Some(epoch_number) => {
                        &&& report.epoch_lengths.len() == epoch_number
                        &&& matches_before(trie, master->Ok_0, epoch_number as int)
                        &&& epoch_differs(trie, master->Ok_0, epoch_number as int)
                    },
                }
                &&& forall|i: int|
                    0 <= i < report.epoch_lengths.len() ==> (#[trigger] report.epoch_lengths[i])
                        == epoch_length(trie, i + 1)
            },
            Err(cause) => {
                let trie = old(accumulator_trie).trie;
                let master = stored_master(trie);
                ||| master == Err::<Seq<H256>, DecodeError>(cause)
                ||| (master is Ok) && (exists|epoch_number: int| #[trigger]
                    fails_at(trie, master->Ok_0, epoch_number, cause))
            },
        },
{
    let ghost given = accumulator_trie.trie;
    let master_accumulator = match accumulator_trie.get_master_accumulator() {
        Ok(roots) => roots,
        Err(e) => {
            return Err(e);
        },
    };
    let mut epoch_lengths: Vec<usize> = Vec::new();
    let mut i: usize = 0;
    while i < master_accumulator.len()
        invariant
            i <= master_accumulator.len(),
            given == old(accumulator_trie).trie,
            accumulator_trie.trie.well_formed(),
            accumulator_trie.epoch_size == old(accumulator_trie).epoch_size,
            accumulator_trie.trie.writes() == given.writes(),
            stored_master(given) == Ok::<Seq<H256>, DecodeError>(master_accumulator@),
            opened(given.master_blob(), accumulator_trie.trie.master_blob()),
            forall|n: usize| opened(given.epoch_blob(n), accumulator_trie.trie.epoch_blob(n)),
            epoch_lengths.len() == i,
            matches_before(given, master_accumulator@, i + 1),
            forall|k: int|
                0 <= k < i ==> (#[trigger] epoch_lengths[k]) == epoch_length(given, k + 1),
        decreases master_accumulator.len() - i,
    {
        let epoch_number = i + 1;
        let epoch_accumulator =
        match accumulator_trie.get_epoch_accumulator_by_epoch_number(&epoch_number) {
            Ok(records) => records,
            Err(e) => {
                assert(fails_at(given, stored_master(given)->Ok_0, epoch_number as int, e));
                return Err(e);
            },
        };
        epoch_lengths.push(epoch_accumulator.len());
        let epoch_hash_to_match = accumulator_trie.get_tree_root_hash(&epoch_accumulator);
        if !(epoch_hash_to_match == master_accumulator[i]) {
            return Ok(HashCheck { epoch_lengths, mismatch: Some(epoch_number) });
        }
        assert(epoch_matches(given, master_accumulator@, epoch_number as int));
        i += 1;
    }
    Ok(HashCheck { epoch_lengths, mismatch: None })
}

} // verus!
