//! The update loop: what it holds between two blocks, how it starts from what
//! the store holds, and what one block does to it.
//!
//! The program around it fetches the blocks, waits between fetches and looks
//! for an interrupt between two blocks; the rules are here.

use vstd::prelude::*;
use crate::accumulator_trie::{
    stored_epoch, stored_master, AccumulatorTrie, AccumulatorTrieTrait, MASTER_CAPACITY,
};
use crate::block::{summary_of_block, Block, BlockError};
use crate::check_hash::{epoch_matches, matches_before};
use crate::codec::{bounded, encode_seq, lemma_decoded_items, DecodeError};
use crate::epoch_sedes::{epoch_root, EpochSede, EPOCH_CAPACITY};
use crate::merkle::chunks_of;
use crate::primitives::H256;
use crate::trie::{opened, replaced, TrieTrait, Write};

verus! {

/// The number of blocks asked for in one fetch.
pub const BLOCKS_PER_FETCH: u64 = 500;

/// The milliseconds to wait after a fetch that brought no blocks.
pub const PAUSE_WITHOUT_BLOCKS: u64 = 5000;

/// The milliseconds to wait after a batch of blocks.
pub const PAUSE_AFTER_BATCH: u64 = 500;

/// The number of the first block that is not in the accumulator yet, where
/// the update loop started at `start` and epoch `epoch_number` holds `length`
/// summaries. Epoch numbers start at one; an epoch number of zero stands for
/// an accumulator that holds nothing.
pub open spec fn resume_point(start: int, epoch_number: int, epoch_size: int, length: int) -> int {
    if epoch_number == 0 {
        start
    } else {
        start + (epoch_number - 1) * epoch_size + length
    }
}

/// The number of the next block to fetch.
pub fn get_starting_block_number(
    starting_block_number: &u32,
    epoch_number: &u32,
    epoch_size: &u32,
    current_epoch_accumulator_length: &u32,
) -> (next: u32)
    requires
        resume_point(
            *starting_block_number as int,
            *epoch_number as int,
            *epoch_size as int,
            *current_epoch_accumulator_length as int,
        ) <= u32::MAX,
    ensures
        next == resume_point(
            *starting_block_number as int,
            *epoch_number as int,
            *epoch_size as int,
            *current_epoch_accumulator_length as int,
        ),
{
    if *epoch_number == 0 {
        return *starting_block_number;
    }
    assert(0 <= (*epoch_number - 1) * *epoch_size) by (nonlinear_arith)
        requires
            *epoch_number >= 1,
    ;
    *starting_block_number + (*epoch_number - 1) * *epoch_size + *current_epoch_accumulator_length
}

/// The two accumulators and the number of the epoch that is being filled.
pub struct LoopModel {
    pub master: Seq<Seq<u8>>,
    pub epoch_number: nat,
    pub current: Seq<EpochSede>,
}

/// The accumulators before the first block: no root, and epoch one empty.
pub open spec fn fresh_model() -> LoopModel {
    LoopModel { master: Seq::empty(), epoch_number: 1, current: Seq::empty() }
}

/// The accumulators after one more block. A full epoch is sealed: the
/// summary starts the next epoch, and the root of that epoch is a new entry
/// of the master accumulator. Else the summary joins the epoch, and the root
/// takes the place of the last entry.
pub open spec fn appended(model: LoopModel, record: EpochSede) -> LoopModel {
    let sealing = model.current.len() == EPOCH_CAPACITY;
    let current = if sealing {
        seq![record]
    } else {
        model.current.push(record)
    };
    let kept = if sealing || model.master.len() == 0 {
        model.master
    } else {
        model.master.drop_last()
    };
    LoopModel {
        master: kept.push(epoch_root(current)),
        epoch_number: if sealing {
            model.epoch_number + 1
        } else {
            model.epoch_number
        },
        current,
    }
}

/// The accumulators after a sequence of blocks.
pub open spec fn after_blocks(model: LoopModel, records: Seq<EpochSede>) -> LoopModel
    decreases records.len(),
{
    if records.len() == 0 {
        model
    } else {
        appended(after_blocks(model, records.drop_last()), records.last())
    }
}

/// The two accumulators agree: there is one root for each epoch up to the
/// one being filled, and the last root is that of the epoch being filled.
/// Before the first block there is no root and epoch one is empty.
pub open spec fn model_consistent(model: LoopModel) -> bool {
    &&& model.current.len() <= EPOCH_CAPACITY
    &&& model.epoch_number >= 1
    &&& if model.master.len() == 0 {
        model.epoch_number == 1 && model.current.len() == 0
    } else {
        model.master.len() == model.epoch_number && model.master.last() == epoch_root(
            model.current,
        )
    }
}

/// One block keeps the accumulators in agreement, and leaves the root of the
/// epoch being filled as the last entry of the master accumulator.
pub proof fn lemma_appended_consistent(model: LoopModel, record: EpochSede)
    requires
        model_consistent(model),
    ensures
        model_consistent(appended(model, record)),
        appended(model, record).master.len() > 0,
        appended(model, record).master.last() == epoch_root(appended(model, record).current),
{
}

/// After any number of blocks from the start, the accumulators agree; after
/// one block or more, the last entry of the master accumulator is the root of
/// the epoch being filled.
pub proof fn lemma_always_consistent(records: Seq<EpochSede>)
    ensures
        model_consistent(after_blocks(fresh_model(), records)),
        records.len() > 0 ==> after_blocks(fresh_model(), records).master.len() > 0
            && after_blocks(fresh_model(), records).master.last() == epoch_root(
            after_blocks(fresh_model(), records).current,
        ),
    decreases records.len(),
{
    if records.len() > 0 {
        lemma_always_consistent(records.drop_last());
        lemma_appended_consistent(after_blocks(fresh_model(), records.drop_last()), records.last());
    }
}

/// The block after a full epoch starts the next one: the epoch number grows
/// by one, the new epoch holds that block alone, and the master accumulator
/// keeps every entry and gains one.
pub proof fn lemma_sealing(model: LoopModel, record: EpochSede)
    requires
        model_consistent(model),
        model.current.len() == EPOCH_CAPACITY,
    ensures
        appended(model, record).epoch_number == model.epoch_number + 1,
        appended(model, record).current == seq![record],
        appended(model, record).master.len() == model.master.len() + 1,
        appended(model, record).master.drop_last() == model.master,
{
    assert(appended(model, record).master.drop_last() =~= model.master);
}

/// A block into an epoch that is not full joins it: the epoch number stays,
/// and the master accumulator has as many entries as before, or one where it
/// had none.
pub proof fn lemma_filling(model: LoopModel, record: EpochSede)
    requires
        model_consistent(model),
        model.current.len() < EPOCH_CAPACITY,
    ensures
        appended(model, record).epoch_number == model.epoch_number,
        appended(model, record).current == model.current.push(record),
        appended(model, record).master.len() == model.epoch_number,
        appended(model, record).master.drop_last() == if model.master.len() == 0 {
            model.master
        } else {
            model.master.drop_last()
        },
{
    let kept = if model.master.len() == 0 {
        model.master
    } else {
        model.master.drop_last()
    };
    assert(appended(model, record).master.drop_last() =~= kept);
}

/// After `count` blocks from the start, the epoch being filled is the one
/// that the last block falls in, and holds the blocks since it began.
pub proof fn lemma_position(records: Seq<EpochSede>)
    requires
        records.len() > 0,
    ensures
        after_blocks(fresh_model(), records).epoch_number == (records.len() - 1) / (
        EPOCH_CAPACITY as int) + 1,
        after_blocks(fresh_model(), records).current.len() == (records.len() - 1) % (
        EPOCH_CAPACITY as int) + 1,
    decreases records.len(),
{
    let before = after_blocks(fresh_model(), records.drop_last());
    if records.len() == 1 {
        assert(records.drop_last().len() == 0);
        assert(before == fresh_model());
    } else {
        lemma_position(records.drop_last());
    }
}

/// The resume point counts the blocks in the accumulator: after `count`
/// blocks from the start it is `count` past the number that the loop started
/// at, the number of the first block that is not in the accumulator.
pub proof fn lemma_resume_point(start: int, records: Seq<EpochSede>)
    ensures
        resume_point(
            start,
            after_blocks(fresh_model(), records).epoch_number as int,
            EPOCH_CAPACITY as int,
            after_blocks(fresh_model(), records).current.len() as int,
        ) == start + records.len(),
{
    if records.len() > 0 {
        lemma_position(records);
        let count = records.len() as int - 1;
        assert(count == 2048 * (count / 2048) + count % 2048) by (nonlinear_arith)
            requires
                count >= 0,
        ;
    }
}

/// Why the update loop does not start.
#[derive(Clone, Copy, Debug, PartialEq, Eq, Structural)]
pub enum StartupError {
    /// The blob of the master accumulator, or that of the epoch to go on
    /// with, is no list.
    Decode(DecodeError),
    /// The last root of the master accumulator is not the root of the epoch
    /// that the store holds for it.
    HashMismatch,
    /// The number of the next block does not fit in 32 bits.
    BlockNumberOverflow,
}

/// Why a block was not taken in.
#[derive(Clone, Copy, Debug, PartialEq, Eq, Structural)]
pub enum UpdateError {
    /// The block has no summary.
    Block(BlockError),
    /// The number after that of the block does not fit in 32 bits.
    BlockNumberOverflow,
    /// The number of the next epoch does not fit.
    EpochNumberOverflow,
    /// The blob that the store holds for the next epoch is no list.
    Decode(DecodeError),
}

/// What happened to a block that was taken in.
#[derive(Clone, Copy, Debug, PartialEq, Eq, Structural)]
pub struct BlockReport {
    /// The epoch that the block went to.
    pub epoch_number: usize,
    /// The block started that epoch after the one before was sealed.
    pub new_epoch: bool,
    /// The store took the accumulator of the epoch.
    pub store_epoch_result: bool,
    /// The store took the master accumulator.
    pub store_master_result: bool,
}

/// The update loop between two blocks.
pub struct UpdateLoop<T: TrieTrait> {
    pub accumulator_trie: AccumulatorTrie<T>,
    pub master_accumulator: Vec<H256>,
    /// The number of the epoch being filled.
    pub epoch_number: usize,
    pub current_epoch_accumulator: Vec<EpochSede>,
    /// The number of the next block to fetch.
    pub starting_block_number: u32,
}

impl<T: TrieTrait> UpdateLoop<T> {
    /// The accumulators that the loop holds.
    pub open spec fn model(&self) -> LoopModel {
        LoopModel {
            master: chunks_of(self.master_accumulator@),
            epoch_number: self.epoch_number as nat,
            current: self.current_epoch_accumulator@,
        }
    }

    /// The accumulators agree, over a store that keeps its blobs apart and an
    /// engine with epochs of 2048 summaries.
    pub open spec fn consistent(&self) -> bool {
        &&& self.accumulator_trie.trie.well_formed()
        &&& self.accumulator_trie.epoch_size == EPOCH_CAPACITY
        &&& model_consistent(self.model())
    }

    /// The store holds what the loop holds: the master accumulator in its
    /// blob, and the epoch being filled in the blob of its number. Before the
    /// first block the blob of epoch one is there, whatever list it holds.
    pub open spec fn persisted(&self) -> bool {
        let trie = self.accumulator_trie.trie;
        &&& trie.master_blob() is Some
        &&& trie.epoch_blob(self.epoch_number) is Some
        &&& stored_master(trie) == Ok::<Seq<H256>, DecodeError>(self.master_accumulator@)
        &&& stored_epoch(trie, self.epoch_number) is Ok
        &&& self.master_accumulator.len() > 0 ==> stored_epoch(trie, self.epoch_number) == Ok::<
            Seq<EpochSede>,
            DecodeError,
        >(self.current_epoch_accumulator@)
    }

    /// Every epoch before the one being filled is in the store, with the root
    /// that the master accumulator has for it.
    pub open spec fn sealed_epochs_match(&self) -> bool {
        matches_before(
            self.accumulator_trie.trie,
            self.master_accumulator@,
            self.epoch_number as int,
        )
    }

    /// Where the store holds what the loop holds and every sealed epoch has
    /// its root, every root of the master accumulator is the root of its
    /// epoch: a check of the store finds no mismatch.
    pub proof fn lemma_store_matches(&self)
        requires
            self.consistent(),
            self.persisted(),
            self.sealed_epochs_match(),
        ensures
            matches_before(
                self.accumulator_trie.trie,
                self.master_accumulator@,
                self.master_accumulator.len() as int + 1,
            ),
    {
        let trie = self.accumulator_trie.trie;
        let master = self.master_accumulator@;
        assert forall|k: int| 1 <= k < master.len() + 1 implies epoch_matches(trie, master, k) by {
            if k == self.epoch_number {
                assert(chunks_of(master).last() == master.last()@);
            }
        }
    }

    /// Starts the loop from what the store holds.
    ///
    /// An empty master accumulator starts epoch one, and the blob of epoch
    /// one is created. Else the loop goes on with the epoch of the last
    /// root, provided that this root is the root of what the store holds for
    /// that epoch. The next block is the one after those in the accumulator,
    /// counted from `configured_start`.
    pub fn start(accumulator_trie: AccumulatorTrie<T>, configured_start: u32) -> (result: Result<
        UpdateLoop<T>,
        StartupError,
    >)
        requires
            accumulator_trie.trie.well_formed(),
            accumulator_trie.epoch_size == EPOCH_CAPACITY,
        ensures
            match result {
                Ok(state) => {
                    &&& state.consistent()
                    &&& state.accumulator_trie.trie.dependable()
                        == accumulator_trie.trie.dependable()
                    &&& state.accumulator_trie.trie.dependable() ==> state.persisted()
                    &&& state.accumulator_trie.trie.writes() == accumulator_trie.trie.writes()
                    &&& stored_master(accumulator_trie.trie) == Ok::<Seq<H256>, DecodeError>(
                        state.master_accumulator@,
                    )
                    &&& stored_epoch(accumulator_trie.trie, state.epoch_number) is Ok
                    &&& if state.master_accumulator.len() == 0 {
                        state.model() == fresh_model()
                    } else {
                        &&& state.epoch_number == state.master_accumulator.len()
                        &&& stored_epoch(accumulator_trie.trie, state.epoch_number) == Ok::<
                            Seq<EpochSede>,
                            DecodeError,
                        >(state.current_epoch_accumulator@)
                    }
                    &&& state.starting_block_number == resume_point(
                        configured_start as int,
                        state.epoch_number as int,
                        EPOCH_CAPACITY as int,
                        state.current_epoch_accumulator.len() as int,
                    )
                    &&& opened(
                        accumulator_trie.trie.master_blob(),
                        state.accumulator_trie.trie.master_blob(),
                    )
                    &&& opened(
                        accumulator_trie.trie.epoch_blob(state.epoch_number),
                        state.accumulator_trie.trie.epoch_blob(state.epoch_number),
                    )
                    &&& forall|n: usize|
                        n != state.epoch_number ==> state.accumulator_trie.trie.epoch_blob(n)
                            == accumulator_trie.trie.epoch_blob(n)
                },
                Err(StartupError::Decode(e)) => {
                    let master = stored_master(accumulator_trie.trie);
                    ||| master == Err::<Seq<H256>, DecodeError>(e)
                    ||| (master is Ok) && stored_epoch(
                        accumulator_trie.trie,
                        first_epoch(master->Ok_0.len()),
                    ) == Err::<Seq<EpochSede>, DecodeError>(e)
                },
                Err(StartupError::HashMismatch) => {
                    let master = stored_master(accumulator_trie.trie);
                    &&& master is Ok
                    &&& master->Ok_0.len() > 0
                    &&& stored_epoch(accumulator_trie.trie, first_epoch(master->Ok_0.len())) is Ok
                    &&& epoch_root(
                        stored_epoch(accumulator_trie.trie, first_epoch(master->Ok_0.len()))->Ok_0,
                    ) != master->Ok_0.last()@
                },
                Err(StartupError::BlockNumberOverflow) => {
                    let master = stored_master(accumulator_trie.trie);
                    let epoch = stored_epoch(accumulator_trie.trie, first_epoch(master->Ok_0.len()));
                    &&& master is Ok
                    &&& epoch is Ok
                    &&& master->Ok_0.len() > 0 ==> epoch_root(epoch->Ok_0) == master->Ok_0.last()@
                    &&& resume_point(
                        configured_start as int,
                        first_epoch(master->Ok_0.len()) as int,
                        EPOCH_CAPACITY as int,
                        if master->Ok_0.len() > 0 {
                            epoch->Ok_0.len() as int
                        } else {
                            0
                        },
                    ) > u32::MAX
                },
            },
    {
        let mut accumulator_trie = accumulator_trie;
        let ghost given = accumulator_trie.trie;
        let master_accumulator = match accumulator_trie.get_master_accumulator() {
            Ok(roots) => roots,
            Err(e) => {
                return Err(StartupError::Decode(e));
            },
        };
        let ghost opened_master = accumulator_trie.trie;
        let mut epoch_number = master_accumulator.len();
        let mut current_epoch_accumulator: Vec<EpochSede> = Vec::new();
        if epoch_number > 0 {
            current_epoch_accumulator =
            match accumulator_trie.get_epoch_accumulator_by_epoch_number(&epoch_number) {
                Ok(records) => records,
                Err(e) => {
                    return Err(StartupError::Decode(e));
                },
            };
            let epoch_hash = accumulator_trie.get_tree_root_hash(&current_epoch_accumulator);
            let stored_hash = master_accumulator[epoch_number - 1];
            if !(epoch_hash == stored_hash) {
                return Err(StartupError::HashMismatch);
            }
        } else {
            epoch_number = 1;
            match accumulator_trie.get_epoch_accumulator_by_epoch_number(&epoch_number) {
                Ok(_) => {},
                Err(e) => {
                    return Err(StartupError::Decode(e));
                },
            }
        }
        let length = current_epoch_accumulator.len();
        assert((epoch_number - 1) * 2048 <= 16777215 * 2048) by (nonlinear_arith)
            requires
                1 <= epoch_number <= 16777216,
        ;
        let total: u64 = configured_start as u64 + (epoch_number as u64 - 1) * 2048 + length as u64;
        if total > u32::MAX as u64 {
            return Err(StartupError::BlockNumberOverflow);
        }
        let starting_block_number = get_starting_block_number(
            &configured_start,
            &(epoch_number as u32),
            &accumulator_trie.epoch_size,
            &(length as u32),
        );
        let state = UpdateLoop {
            accumulator_trie,
            master_accumulator,
            epoch_number,
            current_epoch_accumulator,
            starting_block_number,
        };
        proof {
            if state.master_accumulator.len() == 0 {
                assert(state.model().master =~= Seq::empty());
                assert(state.model().current =~= Seq::empty());
            }
        }
        Ok(state)
    }

    /// The block number to fetch from, and the number of blocks to ask for.
    pub fn next_request(&self) -> (request: (u64, u64))
        ensures
            request.0 == self.starting_block_number,
            request.1 == BLOCKS_PER_FETCH,
    {
        (self.starting_block_number as u64, BLOCKS_PER_FETCH)
    }

    /// Takes in the next block.
    ///
    /// The summary of the block joins the epoch being filled, or starts the
    /// next one where that epoch is full; the root of its epoch becomes the
    /// last entry of the master accumulator. Then the accumulator of the
    /// epoch is handed to the store, and after it the master accumulator. A
    /// store that refuses either is reported and changes nothing else.
    ///
    /// A block that is not taken in leaves everything as it was.
    ///
    /// Over a dependable store that holds what the loop holds, the store
    /// takes both accumulators, and holds what the loop holds afterwards.
    pub fn process_block(&mut self, block: &Block) -> (result: Result<BlockReport, UpdateError>)
        requires
            old(self).consistent(),
        ensures
            final(self).consistent(),
            final(self).accumulator_trie.trie.dependable()
                == old(self).accumulator_trie.trie.dependable(),
            old(self).persisted() && old(self).accumulator_trie.trie.dependable() ==> match result {
                Ok(report) => {
                    &&& report.store_epoch_result
                    &&& report.store_master_result
                    &&& final(self).master_accumulator.len() <= MASTER_CAPACITY
                        ==> final(self).persisted()
                    &&& old(self).sealed_epochs_match() ==> final(self).sealed_epochs_match()
                },
                Err(_) => {
                    &&& final(self).persisted()
                    &&& old(self).sealed_epochs_match() ==> final(self).sealed_epochs_match()
                },
            },
            match result {
                Ok(report) => {
                    let record = final(self).current_epoch_accumulator@.last();
                    let sealing = old(self).current_epoch_accumulator.len() == EPOCH_CAPACITY;
                    let before = old(self).accumulator_trie.trie;
                    let after = final(self).accumulator_trie.trie;
                    let epoch = final(self).epoch_number;
                    &&& summary_of_block(*block, Ok(record))
                    &&& final(self).model() == appended(old(self).model(), record)
                    &&& final(self).starting_block_number == block.block_number + 1
                    &&& report.epoch_number == epoch
                    &&& report.new_epoch == sealing
                    &&& sealing ==> stored_epoch(before, epoch) is Ok
                    &&& if report.store_epoch_result {
                        after.epoch_blob(epoch) == Some(
                            encode_seq(final(self).current_epoch_accumulator@),
                        )
                    } else if sealing {
                        opened(before.epoch_blob(epoch), after.epoch_blob(epoch))
                    } else {
                        after.epoch_blob(epoch) == before.epoch_blob(epoch)
                    }
                    &&& report.store_epoch_result && !sealing ==> before.epoch_blob(epoch) is Some
                    &&& replaced(
                        before.master_blob(),
                        after.master_blob(),
                        encode_seq(
                            bounded(final(self).master_accumulator@, MASTER_CAPACITY as nat),
                        ),
                        report.store_master_result,
                    )
                    &&& forall|n: usize|
                        n != epoch ==> after.epoch_blob(n) == before.epoch_blob(n)
                    &&& after.writes() == before.writes() + writes_of(
                        epoch,
                        final(self).current_epoch_accumulator@,
                        final(self).master_accumulator@,
                        report,
                    )
                },
                Err(e) => {
                    &&& unchanged(*old(self), *final(self))
                    &&& rejected(*old(self), *block, e)
                },
            },
    {
        let epoch_sede = match block.summary() {
            Ok(record) => record,
            Err(e) => {
                return Err(UpdateError::Block(e));
            },
        };
        if block.block_number == u32::MAX {
            return Err(UpdateError::BlockNumberOverflow);
        }
        let to_append_master_accumulator = self.current_epoch_accumulator.len()
            == self.accumulator_trie.epoch_size as usize;
        if to_append_master_accumulator {
            if self.epoch_number == usize::MAX {
                return Err(UpdateError::EpochNumberOverflow);
            }
            let next_epoch = self.epoch_number + 1;
            match self.accumulator_trie.get_epoch_accumulator_by_epoch_number(&next_epoch) {
                Ok(_) => {},
                Err(e) => {
                    proof {
                        if old(self).sealed_epochs_match() {
                            assert forall|k: int| 1 <= k < self.epoch_number implies epoch_matches(
                                self.accumulator_trie.trie,
                                self.master_accumulator@,
                                k,
                            ) by {
                                assert(epoch_matches(
                                    old(self).accumulator_trie.trie,
                                    old(self).master_accumulator@,
                                    k,
                                ));
                            }
                        }
                    }
                    return Err(UpdateError::Decode(e));
                },
            }
            self.epoch_number = next_epoch;
            self.current_epoch_accumulator = Vec::new();
        }
        self.current_epoch_accumulator.push(epoch_sede);
        let epoch_hash = self.accumulator_trie.get_tree_root_hash(&self.current_epoch_accumulator);
        if !to_append_master_accumulator {
            self.master_accumulator.pop();
        }
        self.master_accumulator.push(epoch_hash);
        let store_epoch_result = self.accumulator_trie.store_epoch_accumulator_by_epoch_number(
            &self.epoch_number,
            &self.current_epoch_accumulator,
        );
        let store_master_result = self.accumulator_trie.store_master_accumulator(
            &self.master_accumulator,
        );
        self.starting_block_number = block.block_number + 1;
        proof {
            let report = BlockReport {
                epoch_number: self.epoch_number,
                new_epoch: to_append_master_accumulator,
                store_epoch_result,
                store_master_result,
            };
            assert(self.accumulator_trie.trie.writes() =~= old(self).accumulator_trie.trie.writes()
                + writes_of(
                self.epoch_number,
                self.current_epoch_accumulator@,
                self.master_accumulator@,
                report,
            ));
            assert(self.model().master =~= appended(old(self).model(), epoch_sede).master);
            assert(self.model().current =~= appended(old(self).model(), epoch_sede).current);
            lemma_decoded_items::<EpochSede>(
                self.current_epoch_accumulator@,
                EPOCH_CAPACITY as nat,
            );
            if self.master_accumulator.len() <= MASTER_CAPACITY {
                lemma_decoded_items::<H256>(self.master_accumulator@, MASTER_CAPACITY as nat);
            }
            if old(self).persisted() && old(self).accumulator_trie.trie.dependable() && old(
                self,
            ).sealed_epochs_match() {
                let past = old(self).master_accumulator@;
                assert forall|k: int| 1 <= k < self.epoch_number implies epoch_matches(
                    self.accumulator_trie.trie,
                    self.master_accumulator@,
                    k,
                ) by {
                    assert(self.master_accumulator@[k - 1] == past[k - 1]);
                    if k < old(self).epoch_number {
                        assert(epoch_matches(old(self).accumulator_trie.trie, past, k));
                    } else {
                        assert(chunks_of(past).last() == past.last()@);
                    }
                }
            }
        }
        Ok(
            BlockReport {
                epoch_number: self.epoch_number,
                new_epoch: to_append_master_accumulator,
                store_epoch_result,
                store_master_result,
            },
        )
    }
}

/// The writes that taking in a block brings: the accumulator of the epoch
/// first, the master accumulator after it, each where the store took it.
pub open spec fn writes_of(
    epoch_number: usize,
    current: Seq<EpochSede>,
    master: Seq<H256>,
    report: BlockReport,
) -> Seq<Write> {
    let epoch_write = if report.store_epoch_result {
        seq![Write::Epoch(epoch_number, encode_seq(current))]
    } else {
        Seq::empty()
    };
    let master_write = if report.store_master_result {
        seq![Write::Master(encode_seq(bounded(master, MASTER_CAPACITY as nat)))]
    } else {
        Seq::empty()
    };
    epoch_write + master_write
}

/// The loop holds what it held, over a store with the same blobs.
pub open spec fn unchanged<T: TrieTrait>(before: UpdateLoop<T>, after: UpdateLoop<T>) -> bool {
    &&& after.master_accumulator@ == before.master_accumulator@
    &&& after.epoch_number == before.epoch_number
    &&& after.current_epoch_accumulator@ == before.current_epoch_accumulator@
    &&& after.starting_block_number == before.starting_block_number
    &&& after.accumulator_trie.trie.master_blob() == before.accumulator_trie.trie.master_blob()
    &&& after.accumulator_trie.trie.writes() == before.accumulator_trie.trie.writes()
    &&& forall|n: usize|
        after.accumulator_trie.trie.epoch_blob(n) == before.accumulator_trie.trie.epoch_blob(n)
}

/// Why the loop does not take in a block: the first of these that holds.
pub open spec fn rejected<T: TrieTrait>(state: UpdateLoop<T>, block: Block, e: UpdateError) -> bool {
    let sealing = state.current_epoch_accumulator.len() == EPOCH_CAPACITY;
    match e {
        UpdateError::Block(cause) => summary_of_block(block, Err(cause)),
        UpdateError::BlockNumberOverflow => has_summary(block) && block.block_number == u32::MAX,
        UpdateError::EpochNumberOverflow => {
            &&& has_summary(block)
            &&& block.block_number < u32::MAX
            &&& sealing
            &&& state.epoch_number == usize::MAX
        },
        UpdateError::Decode(cause) => {
            &&& has_summary(block)
            &&& block.block_number < u32::MAX
            &&& sealing
            &&& state.epoch_number < usize::MAX
            &&& stored_epoch(state.accumulator_trie.trie, (state.epoch_number + 1) as usize)
                == Err::<Seq<EpochSede>, DecodeError>(cause)
        },
    }
}

/// The block has a summary.
pub open spec fn has_summary(block: Block) -> bool {
    exists|record: EpochSede| summary_of_block(block, Ok(record))
}

/// The milliseconds to wait before the next fetch: longer where the last one
/// brought no blocks.
pub fn pause_after_fetch(brought_blocks: bool) -> (millis: u64)
    ensures
        millis == if brought_blocks {
            PAUSE_AFTER_BATCH
        } else {
            PAUSE_WITHOUT_BLOCKS
        },
{
    if brought_blocks {
        PAUSE_AFTER_BATCH
    } else {
        PAUSE_WITHOUT_BLOCKS
    }
}

/// The epoch that the loop starts with, given the number of roots in the
/// master accumulator: the last one that has a root, or the first.
pub open spec fn first_epoch(roots: nat) -> usize {
    if roots == 0 {
        1
    } else {
        roots as usize
    }
}

} // verus!
