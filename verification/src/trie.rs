//! The accumulator store: the master accumulator and the epoch accumulators
//! as blobs of the byte store, each under a name of its own.

use vstd::prelude::*;
use vstd::string::*;
use crate::accumulator_storage::{joined_path, AccumulatorFileStorage};
use crate::decimal::{
    append_decimal, decimal, digit_char, lemma_decimal_injective, lemma_decimal_value,
};

verus! {

/// The name of the blob of an epoch accumulator.
pub open spec fn epoch_file_name(epoch_number: nat) -> Seq<char> {
    "epoch_accumulator_"@ + decimal(epoch_number) + ".txt"@
}

/// The name of the blob of the master accumulator.
pub open spec fn master_file_name() -> Seq<char> {
    "master_accumulator.txt"@
}

/// The blobs of two epochs have different names.
pub proof fn lemma_epoch_file_name_injective(a: nat, b: nat)
    requires
        epoch_file_name(a) == epoch_file_name(b),
    ensures
        a == b,
{
    let head = "epoch_accumulator_"@;
    let tail = ".txt"@;
    let name = epoch_file_name(a);
    assert(name.len() == head.len() + decimal(a).len() + tail.len());
    assert(name.len() == head.len() + decimal(b).len() + tail.len());
    assert(decimal(a) =~= name.subrange(head.len() as int, (head.len() + decimal(a).len()) as int));
    assert(decimal(b) =~= name.subrange(head.len() as int, (head.len() + decimal(b).len()) as int));
    lemma_decimal_injective(a, b);
}

/// The blobs of two epochs stand at different paths of one directory.
pub proof fn lemma_epoch_path_injective(directory: Seq<char>, a: nat, b: nat)
    requires
        joined_path(directory, epoch_file_name(a)) == joined_path(directory, epoch_file_name(b)),
    ensures
        a == b,
{
    let (pa, pb) = (
        joined_path(directory, epoch_file_name(a)),
        joined_path(directory, epoch_file_name(b)),
    );
    let at = directory.len() + 1;
    assert(epoch_file_name(a) =~= pa.subrange(at as int, pa.len() as int));
    assert(epoch_file_name(b) =~= pb.subrange(at as int, pb.len() as int));
    lemma_epoch_file_name_injective(a, b);
}

/// The blob of the master accumulator stands at the path of no epoch, in
/// whatever directories the two are kept.
pub proof fn lemma_master_path_apart(master_dir: Seq<char>, epoch_dir: Seq<char>, n: nat)
    ensures
        joined_path(master_dir, master_file_name()) != joined_path(epoch_dir, epoch_file_name(n)),
{
    let m = joined_path(master_dir, master_file_name());
    let e = joined_path(epoch_dir, epoch_file_name(n));
    reveal_strlit("master_accumulator.txt");
    reveal_strlit("epoch_accumulator_");
    reveal_strlit(".txt");
    lemma_decimal_value(n);
    let digits = decimal(n);
    assert(m.len() >= 23);
    assert(m[m.len() - 5] == master_file_name()[17]);
    assert(m[m.len() - 5] == 'r');
    assert(e.len() == epoch_dir.len() + 1 + 18 + digits.len() + 4);
    assert(e[e.len() - 5] == digits[digits.len() - 1]);
    assert(e[e.len() - 5] == digit_char(n % 10));
}

/// The blob at a path, if there is one.
pub open spec fn blob_at(files: Map<Seq<char>, Seq<u8>>, path: Seq<char>) -> Option<Seq<u8>> {
    if files.contains_key(path) {
        Some(files[path])
    } else {
        None
    }
}

/// The bytes that reading a blob gives: none where there is no blob.
pub open spec fn content(blob: Option<Seq<u8>>) -> Seq<u8> {
    match blob {
        Some(bytes) => bytes,
        None => Seq::empty(),
    }
}

/// A blob before and after it was asked for: where there was none, an empty
/// one may have been created.
pub open spec fn opened(before: Option<Seq<u8>>, after: Option<Seq<u8>>) -> bool {
    after == before || (before is None && after == Some(Seq::<u8>::empty()))
}

/// A blob before and after an attempt to replace it by `bytes`, which
/// reported `written`. Only a blob that is there can be replaced.
pub open spec fn replaced(
    before: Option<Seq<u8>>,
    after: Option<Seq<u8>>,
    bytes: Seq<u8>,
    written: bool,
) -> bool {
    if written {
        before is Some && after == Some(bytes)
    } else {
        after == before
    }
}

/// A write that a store took: the bytes that replaced the blob of the master
/// accumulator, or that of an epoch.
pub enum Write {
    Master(Seq<u8>),
    Epoch(usize, Seq<u8>),
}

/// The writes of a store after an attempt to write, which reported
/// `written`: a write that was taken is the last of them.
pub open spec fn logged(before: Seq<Write>, after: Seq<Write>, write: Write, written: bool) -> bool {
    after == if written {
        before.push(write)
    } else {
        before
    }
}

/// A store of the encoded accumulators: one blob for the master accumulator
/// and one for each epoch number.
///
/// The functions that say what a store holds and what it took have a body
/// here, which a verified store replaces by its own. Code that is generic in
/// the store knows of them only what the contracts of the methods say.
pub trait TrieTrait: Sized {
    /// The names of the store keep its blobs apart.
    open spec fn well_formed(&self) -> bool {
        true
    }

    /// The store does what it is asked for: it creates every blob that is
    /// missing when it is read, and replaces every blob that is there when it
    /// is written. A store on a medium that may fail is not dependable.
    open spec fn dependable(&self) -> bool {
        false
    }

    /// The writes that the store took, oldest first.
    open spec fn writes(&self) -> Seq<Write> {
        Seq::empty()
    }

    /// The blob of the master accumulator, if there is one.
    open spec fn master_blob(&self) -> Option<Seq<u8>> {
        None
    }

    /// The blob of the accumulator of an epoch, if there is one.
    open spec fn epoch_blob(&self, epoch_number: usize) -> Option<Seq<u8>> {
        None
    }

    fn new(accumulator_storage: AccumulatorFileStorage) -> (trie: Self)
        ensures
            trie.well_formed(),
    ;

    /// The bytes of the master accumulator. Where it has no blob yet, an empty
    /// one is created first.
    fn get_master_accumulator_encoded(&mut self) -> (bytes: Vec<u8>)
        requires
            old(self).well_formed(),
        ensures
            final(self).well_formed(),
            final(self).dependable() == old(self).dependable(),
            opened(old(self).master_blob(), final(self).master_blob()),
            final(self).dependable() ==> final(self).master_blob() is Some,
            final(self).writes() == old(self).writes(),
            bytes@ == content(final(self).master_blob()),
            forall|n: usize| final(self).epoch_blob(n) == old(self).epoch_blob(n),
    ;

    /// Replaces the bytes of the master accumulator. Only a blob that is
    /// there can be replaced.
    fn update_master_accumulator_encoded(&mut self, trie_encoded: &Vec<u8>) -> (written: bool)
        requires
            old(self).well_formed(),
        ensures
            final(self).well_formed(),
            final(self).dependable() == old(self).dependable(),
            replaced(old(self).master_blob(), final(self).master_blob(), trie_encoded@, written),
            final(self).dependable() ==> written == old(self).master_blob() is Some,
            logged(old(self).writes(), final(self).writes(), Write::Master(trie_encoded@), written),
            forall|n: usize| final(self).epoch_blob(n) == old(self).epoch_blob(n),
    ;

    /// The name of the blob of an epoch.
    fn get_file_name_from_epoch_number(&self, epoch_number: &usize) -> String;

    /// The bytes of the accumulator of an epoch. Where it has no blob yet, an
    /// empty one is created first.
    fn get_epoch_accumulator_encoded(&mut self, epoch_number: &usize) -> (bytes: Vec<u8>)
        requires
            old(self).well_formed(),
        ensures
            final(self).well_formed(),
            final(self).dependable() == old(self).dependable(),
            opened(old(self).epoch_blob(*epoch_number), final(self).epoch_blob(*epoch_number)),
            final(self).dependable() ==> final(self).epoch_blob(*epoch_number) is Some,
            final(self).writes() == old(self).writes(),
            bytes@ == content(final(self).epoch_blob(*epoch_number)),
            final(self).master_blob() == old(self).master_blob(),
            forall|n: usize|
                n != *epoch_number ==> final(self).epoch_blob(n) == old(self).epoch_blob(n),
    ;

    /// Replaces the bytes of the accumulator of an epoch. Only a blob that is
    /// there can be replaced.
    fn update_epoch_accumulator_encoded(
        &mut self,
        epoch_number: &usize,
        trie_encoded: &Vec<u8>,
    ) -> (written: bool)
        requires
            old(self).well_formed(),
        ensures
            final(self).well_formed(),
            final(self).dependable() == old(self).dependable(),
            replaced(
                old(self).epoch_blob(*epoch_number),
                final(self).epoch_blob(*epoch_number),
                trie_encoded@,
                written,
            ),
            final(self).dependable() ==> written == old(self).epoch_blob(*epoch_number) is Some,
            logged(
                old(self).writes(),
                final(self).writes(),
                Write::Epoch(*epoch_number, trie_encoded@),
                written,
            ),
            final(self).master_blob() == old(self).master_blob(),
            forall|n: usize|
                n != *epoch_number ==> final(self).epoch_blob(n) == old(self).epoch_blob(n),
    ;
}

/// The accumulator store over the byte store: the master accumulator in a
/// blob of the master directory, the accumulator of epoch `n` in the blob
/// `epoch_accumulator_<n>.txt` of the epoch directory.
pub struct Trie {
    pub accumulator_storage: AccumulatorFileStorage,
    pub file_name: String,
    /// The writes that the store took, oldest first.
    pub log: Ghost<Seq<Write>>,
}

impl Trie {
    /// The path of the blob of the master accumulator.
    pub open spec fn master_path(&self) -> Seq<char> {
        joined_path(self.accumulator_storage.master_file_path@, self.file_name@)
    }

    /// The path of the blob of an epoch.
    pub open spec fn epoch_path(&self, epoch_number: usize) -> Seq<char> {
        joined_path(
            self.accumulator_storage.epoch_file_path@,
            epoch_file_name(epoch_number as nat),
        )
    }

    proof fn lemma_same_names(before: Trie, after: Trie)
        requires
            before.well_formed(),
            after.accumulator_storage.master_file_path == before.accumulator_storage.master_file_path,
            after.accumulator_storage.epoch_file_path == before.accumulator_storage.epoch_file_path,
            after.file_name == before.file_name,
        ensures
            after.well_formed(),
    {
        assert forall|n: usize| after.master_path() != #[trigger] after.epoch_path(n) by {
            assert(before.master_path() != before.epoch_path(n));
        }
    }

    proof fn lemma_epoch_paths_apart(&self, a: usize, b: usize)
        requires
            a != b,
        ensures
            self.epoch_path(a) != self.epoch_path(b),
    {
        if self.epoch_path(a) == self.epoch_path(b) {
            lemma_epoch_path_injective(
                self.accumulator_storage.epoch_file_path@,
                a as nat,
                b as nat,
            );
        }
    }
}

impl TrieTrait for Trie {
    open spec fn well_formed(&self) -> bool {
        forall|n: usize| self.master_path() != #[trigger] self.epoch_path(n)
    }

    open spec fn dependable(&self) -> bool {
        true
    }

    open spec fn writes(&self) -> Seq<Write> {
        self.log@
    }

    open spec fn master_blob(&self) -> Option<Seq<u8>> {
        blob_at(self.accumulator_storage.files@, self.master_path())
    }

    open spec fn epoch_blob(&self, epoch_number: usize) -> Option<Seq<u8>> {
        blob_at(self.accumulator_storage.files@, self.epoch_path(epoch_number))
    }

    /// The store over a byte store, with the master accumulator in the blob
    /// `master_accumulator.txt`.
    fn new(accumulator_storage: AccumulatorFileStorage) -> (trie: Trie)
        ensures
            trie.accumulator_storage == accumulator_storage,
            trie.file_name@ == master_file_name(),
            trie.writes() == Seq::<Write>::empty(),
    {
        let trie = Trie {
            accumulator_storage,
            file_name: String::from_str("master_accumulator.txt"),
            log: Ghost(Seq::empty()),
        };
        proof {
            assert forall|n: usize| trie.master_path() != #[trigger] trie.epoch_path(n) by {
                lemma_master_path_apart(
                    trie.accumulator_storage.master_file_path@,
                    trie.accumulator_storage.epoch_file_path@,
                    n as nat,
                );
            }
        }
        trie
    }

    fn get_master_accumulator_encoded(&mut self) -> (bytes: Vec<u8>)
        ensures
            final(self).accumulator_storage.master_file_path == old(
                self,
            ).accumulator_storage.master_file_path,
            final(self).accumulator_storage.epoch_file_path == old(
                self,
            ).accumulator_storage.epoch_file_path,
            final(self).file_name == old(self).file_name,
            final(self).master_blob() == Some(content(old(self).master_blob())),
    {
        let file_name = self.file_name.clone();
        self.accumulator_storage.create_new_master_accumulator_file(file_name.as_str());
        let master_accumulator_file_content = self.accumulator_storage.get_master_accumulator(
            file_name.as_str(),
        );
        proof {
            Trie::lemma_same_names(*old(self), *self);
            assert forall|n: usize| self.epoch_blob(n) == old(self).epoch_blob(n) by {
                assert(old(self).master_path() != old(self).epoch_path(n));
            }
        }
        master_accumulator_file_content
    }

    fn update_master_accumulator_encoded(&mut self, trie_encoded: &Vec<u8>) -> (written: bool)
        ensures
            final(self).accumulator_storage.master_file_path == old(
                self,
            ).accumulator_storage.master_file_path,
            final(self).accumulator_storage.epoch_file_path == old(
                self,
            ).accumulator_storage.epoch_file_path,
            final(self).file_name == old(self).file_name,
            written == old(self).master_blob() is Some,
    {
        let file_name = self.file_name.clone();
        let result = self.accumulator_storage.write_master_accumulator(
            file_name.as_str(),
            trie_encoded,
        );
        if result {
            self.log = Ghost(self.log@.push(Write::Master(trie_encoded@)));
        }
        proof {
            Trie::lemma_same_names(*old(self), *self);
            assert forall|n: usize| self.epoch_blob(n) == old(self).epoch_blob(n) by {
                assert(old(self).master_path() != old(self).epoch_path(n));
            }
        }
        result
    }

    fn get_file_name_from_epoch_number(&self, epoch_number: &usize) -> (name: String)
        ensures
            name@ == epoch_file_name(*epoch_number as nat),
    {
        let mut name = String::from_str("epoch_accumulator_");
        append_decimal(*epoch_number, &mut name);
        name.append(".txt");
        name
    }

    fn get_epoch_accumulator_encoded(&mut self, epoch_number: &usize) -> (bytes: Vec<u8>)
        ensures
            final(self).accumulator_storage.master_file_path == old(
                self,
            ).accumulator_storage.master_file_path,
            final(self).accumulator_storage.epoch_file_path == old(
                self,
            ).accumulator_storage.epoch_file_path,
            final(self).file_name == old(self).file_name,
            final(self).epoch_blob(*epoch_number) == Some(
                content(old(self).epoch_blob(*epoch_number)),
            ),
    {
        let file_name = self.get_file_name_from_epoch_number(epoch_number);
        self.accumulator_storage.create_new_epoch_accumulator_file(file_name.as_str());
        let epoch_accumulator_file_content = self.accumulator_storage.get_epoch_accumulator(
            file_name.as_str(),
        );
        proof {
            Trie::lemma_same_names(*old(self), *self);
            assert forall|n: usize| n != *epoch_number implies self.epoch_blob(n) == old(
                self,
            ).epoch_blob(n) by {
                old(self).lemma_epoch_paths_apart(n, *epoch_number);
            }
            assert(old(self).master_path() != old(self).epoch_path(*epoch_number));
        }
        let byte_content = epoch_accumulator_file_content;
        byte_content
    }

    fn update_epoch_accumulator_encoded(
        &mut self,
        epoch_number: &usize,
        trie_encoded: &Vec<u8>,
    ) -> (written: bool)
        ensures
            final(self).accumulator_storage.master_file_path == old(
                self,
            ).accumulator_storage.master_file_path,
            final(self).accumulator_storage.epoch_file_path == old(
                self,
            ).accumulator_storage.epoch_file_path,
            final(self).file_name == old(self).file_name,
            written == old(self).epoch_blob(*epoch_number) is Some,
    {
        let file_name = self.get_file_name_from_epoch_number(epoch_number);
        let result = self.accumulator_storage.write_epoch_accumulator(
            file_name.as_str(),
            trie_encoded,
        );
        if result {
            self.log = Ghost(self.log@.push(Write::Epoch(*epoch_number, trie_encoded@)));
        }
        proof {
            Trie::lemma_same_names(*old(self), *self);
            assert forall|n: usize| n != *epoch_number implies self.epoch_blob(n) == old(
                self,
            ).epoch_blob(n) by {
                old(self).lemma_epoch_paths_apart(n, *epoch_number);
            }
            assert(old(self).master_path() != old(self).epoch_path(*epoch_number));
        }
        result
    }
}

} // verus!
