//! The accumulators as lists: read from the store and decoded, encoded and
//! written to it, and hashed.

use vstd::prelude::*;
use crate::codec::{
    bounded, decode_list, decoded, encode_list, encode_seq, result_view, DecodeError,
};
use crate::epoch_sedes::{epoch_root, epoch_tree_root, EpochSede, EPOCH_CAPACITY};
use crate::primitives::H256;
use crate::trie::{content, logged, opened, replaced, TrieTrait, Write};

verus! {

/// The number of roots that the master accumulator may hold.
pub const MASTER_CAPACITY: usize = 16777216;

/// The master accumulator that a store holds, or why its blob is none. Where
/// there is no blob, the list is empty.
pub open spec fn stored_master<T: TrieTrait>(trie: T) -> Result<Seq<H256>, DecodeError> {
    decoded::<H256>(content(trie.master_blob()), MASTER_CAPACITY as nat)
}

/// The accumulator of an epoch that a store holds, or why its blob is none.
/// Where there is no blob, the list is empty.
pub open spec fn stored_epoch<T: TrieTrait>(trie: T, epoch_number: usize) -> Result<
    Seq<EpochSede>,
    DecodeError,
> {
    decoded::<EpochSede>(content(trie.epoch_blob(epoch_number)), EPOCH_CAPACITY as nat)
}

/// What the accumulator engine offers over a store.
pub trait AccumulatorTrieTrait<T: TrieTrait>: Sized {
    /// The store that the engine reads and writes.
    spec fn store(&self) -> T;

    fn new(master_trie: T) -> (engine: Self)
        ensures
            engine.store() == master_trie,
    ;

    /// The master accumulator as the store holds it. An empty blob, and one
    /// that is created by this call, is the empty list.
    fn get_master_accumulator(&mut self) -> (result: Result<Vec<H256>, DecodeError>)
        requires
            old(self).store().well_formed(),
        ensures
            final(self).store().well_formed(),
            final(self).store().dependable() == old(self).store().dependable(),
            final(self).store().dependable() ==> final(self).store().master_blob() is Some,
            final(self).store().writes() == old(self).store().writes(),
            opened(old(self).store().master_blob(), final(self).store().master_blob()),
            forall|n: usize| final(self).store().epoch_blob(n) == old(self).store().epoch_blob(n),
            result_view(result) == stored_master(final(self).store()),
            result matches Ok(roots) ==> roots.len() <= MASTER_CAPACITY,
    ;

    /// Writes the first `MASTER_CAPACITY` roots of a master accumulator to its
    /// blob, and says whether the store took them.
    fn store_master_accumulator(&mut self, master_accumulator: &Vec<H256>) -> (written: bool)
        requires
            old(self).store().well_formed(),
        ensures
            final(self).store().well_formed(),
            final(self).store().dependable() == old(self).store().dependable(),
            final(self).store().dependable() ==> written == old(self).store().master_blob() is Some,
            logged(
                old(self).store().writes(),
                final(self).store().writes(),
                Write::Master(encode_seq(bounded(master_accumulator@, MASTER_CAPACITY as nat))),
                written,
            ),
            replaced(
                old(self).store().master_blob(),
                final(self).store().master_blob(),
                encode_seq(bounded(master_accumulator@, MASTER_CAPACITY as nat)),
                written,
            ),
            forall|n: usize| final(self).store().epoch_blob(n) == old(self).store().epoch_blob(n),
    ;

    /// The accumulator of an epoch as the store holds it. An empty blob, and
    /// one that is created by this call, is the empty list.
    fn get_epoch_accumulator_by_epoch_number(&mut self, epoch_number: &usize) -> (result: Result<
        Vec<EpochSede>,
        DecodeError,
    >)
        requires
            old(self).store().well_formed(),
        ensures
            final(self).store().well_formed(),
            final(self).store().dependable() == old(self).store().dependable(),
            final(self).store().dependable() ==> final(self).store().epoch_blob(*epoch_number)
                is Some,
            final(self).store().writes() == old(self).store().writes(),
            opened(
                old(self).store().epoch_blob(*epoch_number),
                final(self).store().epoch_blob(*epoch_number),
            ),
            final(self).store().master_blob() == old(self).store().master_blob(),
            forall|n: usize|
                n != *epoch_number ==> final(self).store().epoch_blob(n) == old(
                    self,
                ).store().epoch_blob(n),
            result_view(result) == stored_epoch(final(self).store(), *epoch_number),
            result matches Ok(records) ==> records.len() <= EPOCH_CAPACITY,
    ;

    /// Writes the first `EPOCH_CAPACITY` summaries of the accumulator of an
    /// epoch to its blob, and says whether the store took them.
    fn store_epoch_accumulator_by_epoch_number(
        &mut self,
        epoch_number: &usize,
        epoch_accumulator: &Vec<EpochSede>,
    ) -> (written: bool)
        requires
            old(self).store().well_formed(),
        ensures
            final(self).store().well_formed(),
            final(self).store().dependable() == old(self).store().dependable(),
            final(self).store().dependable() ==> written == old(self).store().epoch_blob(
                *epoch_number,
            ) is Some,
            logged(
                old(self).store().writes(),
                final(self).store().writes(),
                Write::Epoch(
                    *epoch_number,
                    encode_seq(bounded(epoch_accumulator@, EPOCH_CAPACITY as nat)),
                ),
                written,
            ),
            replaced(
                old(self).store().epoch_blob(*epoch_number),
                final(self).store().epoch_blob(*epoch_number),
                encode_seq(bounded(epoch_accumulator@, EPOCH_CAPACITY as nat)),
                written,
            ),
            final(self).store().master_blob() == old(self).store().master_blob(),
            forall|n: usize|
                n != *epoch_number ==> final(self).store().epoch_blob(n) == old(
                    self,
                ).store().epoch_blob(n),
    ;

    /// The Merkle root of an epoch accumulator.
    fn get_tree_root_hash(&self, epoch_accumulator: &Vec<EpochSede>) -> (root: H256)
        ensures
            root@ == epoch_root(epoch_accumulator@),
    ;
}

/// The accumulator engine over a store.
pub struct AccumulatorTrie<T: TrieTrait> {
    pub trie: T,
    /// The number of summaries that seal an epoch.
    pub epoch_size: u32,
}

impl<T: TrieTrait> AccumulatorTrieTrait<T> for AccumulatorTrie<T> {
    open spec fn store(&self) -> T {
        self.trie
    }

    /// The engine over a store, with epochs of 2048 summaries.
    fn new(trie: T) -> (engine: AccumulatorTrie<T>)
        ensures
            engine.trie == trie,
            engine.epoch_size == EPOCH_CAPACITY,
    {
        AccumulatorTrie { trie, epoch_size: 2048 }
    }

    fn get_master_accumulator(&mut self) -> (result: Result<Vec<H256>, DecodeError>)
        ensures
            final(self).epoch_size == old(self).epoch_size,
    {
        let encoded_ssz = self.trie.get_master_accumulator_encoded();
        decode_list::<H256>(&encoded_ssz, MASTER_CAPACITY)
    }

    fn store_master_accumulator(&mut self, master_accumulator: &Vec<H256>) -> (written: bool)
        ensures
            final(self).epoch_size == old(self).epoch_size,
    {
        let encoded_master_sede_var_list = encode_list(master_accumulator, MASTER_CAPACITY);
        let result = self.trie.update_master_accumulator_encoded(&encoded_master_sede_var_list);
        result
    }

    fn get_epoch_accumulator_by_epoch_number(&mut self, epoch_number: &usize) -> (result: Result<
        Vec<EpochSede>,
        DecodeError,
    >)
        ensures
            final(self).epoch_size == old(self).epoch_size,
    {
        let encoded_epoch = self.trie.get_epoch_accumulator_encoded(epoch_number);
        decode_list::<EpochSede>(&encoded_epoch, EPOCH_CAPACITY)
    }

    fn store_epoch_accumulator_by_epoch_number(
        &mut self,
        epoch_number: &usize,
        epoch_accumulator: &Vec<EpochSede>,
    ) -> (written: bool)
        ensures
            final(self).epoch_size == old(self).epoch_size,
    {
        let epoch_sede_var_list_encoded = encode_list(epoch_accumulator, EPOCH_CAPACITY);
        let result = self.trie.update_epoch_accumulator_encoded(
            epoch_number,
            &epoch_sede_var_list_encoded,
        );
        result
    }

    fn get_tree_root_hash(&self, epoch_accumulator: &Vec<EpochSede>) -> (root: H256) {
        epoch_tree_root(epoch_accumulator)
    }
}

} // verus!
