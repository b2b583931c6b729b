//! The byte store under the accumulator: named blobs, kept in memory.
//!
//! A blob is read whole and written whole. Reading a name that has no blob
//! gives no bytes, writing to one is refused, and a blob is created empty.
//! A program that keeps its blobs elsewhere does the same on its own medium.

use vstd::prelude::*;
use vstd::string::*;

verus! {

/// The path of a file in a directory: the directory, a slash, the name.
pub open spec fn joined_path(base_path: Seq<char>, file_name: Seq<char>) -> Seq<char> {
    base_path + seq!['/'] + file_name
}

/// What reading a path gives: the blob there, or nothing where there is none.
pub open spec fn blob_or_empty(files: Map<Seq<char>, Seq<u8>>, path: Seq<char>) -> Seq<u8> {
    if files.contains_key(path) {
        files[path]
    } else {
        Seq::empty()
    }
}

/// A copy of a byte buffer.
pub fn copy_bytes(bytes: &Vec<u8>) -> (copy: Vec<u8>)
    ensures
        copy@ == bytes@,
{
    let mut copy: Vec<u8> = Vec::new();
    let mut i: usize = 0;
    while i < bytes.len()
        invariant
            i <= bytes.len(),
            copy@ == bytes@.take(i as int),
        decreases bytes.len() - i,
    {
        copy.push(bytes[i]);
        assert(bytes@.take(i as int + 1) =~= bytes@.take(i as int).push(bytes@[i as int]));
        i += 1;
    }
    assert(bytes@.take(bytes.len() as int) =~= bytes@);
    copy
}

/// A blob and the path it stands at.
pub struct FileEntry {
    path: String,
    content: Vec<u8>,
}

/// Blobs by path. Where a path occurs twice, its first entry counts.
pub struct FileTable {
    entries: Vec<FileEntry>,
}

impl FileTable {
    spec fn holds(self, path: Seq<char>, i: int) -> bool {
        0 <= i < self.entries.len() && self.entries[i].path@ == path
    }

    spec fn first(self, path: Seq<char>, i: int) -> bool {
        self.holds(path, i) && forall|j: int| 0 <= j < i ==> !self.holds(path, j)
    }

    /// The blobs of the table, by path.
    pub closed spec fn view(self) -> Map<Seq<char>, Seq<u8>> {
        Map::new(
            |path: Seq<char>| exists|i: int| self.first(path, i),
            |path: Seq<char>| self.entries[choose|i: int| self.first(path, i)].content@,
        )
    }

    /// A table without blobs.
    pub fn new() -> (table: FileTable)
        ensures
            table@ == Map::<Seq<char>, Seq<u8>>::empty(),
    {
        let table = FileTable { entries: Vec::new() };
        assert(table@ =~= Map::<Seq<char>, Seq<u8>>::empty());
        table
    }

    proof fn lemma_first_unique(self, path: Seq<char>, i: int, j: int)
        requires
            self.first(path, i),
            self.first(path, j),
        ensures
            i == j,
    {
    }

    fn find(&self, path: &str) -> (found: Option<usize>)
        ensures
            match found {
                Some(i) => self.first(path@, i as int) && self@.contains_key(path@) && self@[path@]
                    == self.entries[i as int].content@,
                None => !self@.contains_key(path@) && forall|j: int| !self.holds(path@, j),
            },
    {
        let wanted = path.to_owned();
        let mut i: usize = 0;
        while i < self.entries.len()
            invariant
                i <= self.entries.len(),
                wanted@ == path@,
                forall|j: int| 0 <= j < i ==> !self.holds(path@, j),
            decreases self.entries.len() - i,
        {
            if self.entries[i].path == wanted {
                assert(self.first(path@, i as int));
                let ghost chosen = choose|k: int| self.first(path@, k);
                proof {
                    self.lemma_first_unique(path@, chosen, i as int);
                }
                return Some(i);
            }
            i += 1;
        }
        None
    }

    /// Whether a blob stands at the path.
    pub fn contains(&self, path: &str) -> (found: bool)
        ensures
            found == self@.contains_key(path@),
    {
        self.find(path).is_some()
    }

    /// The blob at the path, where there is one.
    pub fn read(&self, path: &str) -> (blob: Option<Vec<u8>>)
        ensures
            match blob {
                Some(bytes) => self@.contains_key(path@) && bytes@ == self@[path@],
                None => !self@.contains_key(path@),
            },
    {
        match self.find(path) {
            Some(i) => Some(copy_bytes(&self.entries[i].content)),
            None => None,
        }
    }

    /// Puts a blob at the path, in place of the one that was there, if any.
    pub fn write(&mut self, path: &str, content: &Vec<u8>)
        ensures
            final(self)@ == old(self)@.insert(path@, content@),
    {
        let ghost before = *self;
        let entry = FileEntry { path: path.to_owned(), content: copy_bytes(content) };
        match self.find(path) {
            Some(i) => {
                self.entries.set(i, entry);
                proof {
                    let after = *self;
                    assert forall|p: Seq<char>, k: int| after.holds(p, k) == before.holds(p, k) by {}
                    assert forall|p: Seq<char>, k: int| after.first(p, k) == before.first(p, k) by {}
                    assert forall|p: Seq<char>| #[trigger] after@.contains_key(p) implies after@[p]
                        == before@.insert(path@, content@)[p] by {
                        let k = choose|k: int| after.first(p, k);
                        let kb = choose|k: int| before.first(p, k);
                        assert(before.first(p, k));
                        before.lemma_first_unique(p, k, kb);
                        if p == path@ {
                            before.lemma_first_unique(p, k, i as int);
                        }
                    }
                    assert(after@ =~= before@.insert(path@, content@));
                }
            },
            None => {
                self.entries.push(entry);
                proof {
                    let after = *self;
                    let last = before.entries.len() as int;
                    assert(after.holds(path@, last));
                    assert forall|p: Seq<char>, k: int| 0 <= k < last implies after.holds(p, k)
                        == before.holds(p, k) by {}
                    assert forall|p: Seq<char>, k: int| 0 <= k < last implies after.first(p, k)
                        == before.first(p, k) by {}
                    assert(after.first(path@, last));
                    assert forall|p: Seq<char>| #[trigger]
                        before@.insert(path@, content@).contains_key(p) implies after@.contains_key(
                        p,
                    ) && after@[p] == before@.insert(path@, content@)[p] by {
                        if p == path@ {
                            let k = choose|k: int| after.first(p, k);
                            after.lemma_first_unique(p, k, last);
                        } else {
                            let kb = choose|k: int| before.first(p, k);
                            assert(after.first(p, kb));
                            let k = choose|k: int| after.first(p, k);
                            after.lemma_first_unique(p, k, kb);
                        }
                    }
                    assert forall|p: Seq<char>| #[trigger] after@.contains_key(p) implies before@.insert(
                        path@,
                        content@,
                    ).contains_key(p) by {
                        let k = choose|k: int| after.first(p, k);
                        if k != last {
                            assert(before.first(p, k));
                        }
                    }
                    assert(after@ =~= before@.insert(path@, content@));
                }
            },
        }
    }
}

/// The byte store of the accumulator: a directory for the master accumulator,
/// a directory for the epoch accumulators, and the blobs in them.
pub struct AccumulatorFileStorage {
    pub master_file_path: String,
    pub epoch_file_path: String,
    /// The blobs, by path.
    pub files: FileTable,
}

impl AccumulatorFileStorage {
    /// A store with the two directories and no blob.
    pub fn new(mas_file_path: String, epoch_file_path: String) -> (storage: AccumulatorFileStorage)
        ensures
            storage.master_file_path == mas_file_path,
            storage.epoch_file_path == epoch_file_path,
            storage.files@ == Map::<Seq<char>, Seq<u8>>::empty(),
    {
        AccumulatorFileStorage {
            master_file_path: mas_file_path,
            epoch_file_path: epoch_file_path,
            files: FileTable::new(),
        }
    }

    /// The bytes of the named blob in the master directory; none where there
    /// is no such blob.
    pub fn get_master_accumulator(&self, file_name: &str) -> (bytes: Vec<u8>)
        ensures
            bytes@ == blob_or_empty(
                self.files@,
                joined_path(self.master_file_path@, file_name@),
            ),
    {
        let full_path = self.concat_file_path(self.master_file_path.as_str(), file_name);
        self.read_from_file(full_path.as_str())
    }

    /// The bytes of the named blob in the epoch directory; none where there is
    /// no such blob.
    pub fn get_epoch_accumulator(&self, file_name: &str) -> (bytes: Vec<u8>)
        ensures
            bytes@ == blob_or_empty(self.files@, joined_path(self.epoch_file_path@, file_name@)),
    {
        let full_path = self.concat_file_path(self.epoch_file_path.as_str(), file_name);
        self.read_from_file(full_path.as_str())
    }

    /// Replaces the named blob in the master directory. Refused, with nothing
    /// changed, where there is no such blob.
    pub fn write_master_accumulator(&mut self, file_name: &str, content: &Vec<u8>) -> (written:
        bool)
        ensures
            final(self).master_file_path == old(self).master_file_path,
            final(self).epoch_file_path == old(self).epoch_file_path,
            written == old(self).files@.contains_key(
                joined_path(old(self).master_file_path@, file_name@),
            ),
            final(self).files@ == if written {
                old(self).files@.insert(
                    joined_path(old(self).master_file_path@, file_name@),
                    content@,
                )
            } else {
                old(self).files@
            },
    {
        let full_path = self.concat_file_path(self.master_file_path.as_str(), file_name);
        self.write_to_file(full_path.as_str(), content)
    }

    /// Replaces the named blob in the epoch directory. Refused, with nothing
    /// changed, where there is no such blob.
    pub fn write_epoch_accumulator(&mut self, file_name: &str, content: &Vec<u8>) -> (written:
        bool)
        ensures
            final(self).master_file_path == old(self).master_file_path,
            final(self).epoch_file_path == old(self).epoch_file_path,
            written == old(self).files@.contains_key(
                joined_path(old(self).epoch_file_path@, file_name@),
            ),
            final(self).files@ == if written {
                old(self).files@.insert(
                    joined_path(old(self).epoch_file_path@, file_name@),
                    content@,
                )
            } else {
                old(self).files@
            },
    {
        let full_path = self.concat_file_path(self.epoch_file_path.as_str(), file_name);
        self.write_to_file(full_path.as_str(), content)
    }

    /// Creates the named blob in the master directory, empty. Refused, with
    /// nothing changed, where the blob is there already.
    pub fn create_new_master_accumulator_file(&mut self, file_name: &str) -> (created: bool)
        ensures
            final(self).master_file_path == old(self).master_file_path,
            final(self).epoch_file_path == old(self).epoch_file_path,
            created == !old(self).files@.contains_key(
                joined_path(old(self).master_file_path@, file_name@),
            ),
            final(self).files@ == if created {
                old(self).files@.insert(
                    joined_path(old(self).master_file_path@, file_name@),
                    Seq::empty(),
                )
            } else {
                old(self).files@
            },
    {
        let base_path = self.master_file_path.clone();
        self.create_file_at_path(base_path.as_str(), file_name)
    }

    /// Creates the named blob in the epoch directory, empty. Refused, with
    /// nothing changed, where the blob is there already.
    pub fn create_new_epoch_accumulator_file(&mut self, file_name: &str) -> (created: bool)
        ensures
            final(self).master_file_path == old(self).master_file_path,
            final(self).epoch_file_path == old(self).epoch_file_path,
            created == !old(self).files@.contains_key(
                joined_path(old(self).epoch_file_path@, file_name@),
            ),
            final(self).files@ == if created {
                old(self).files@.insert(
                    joined_path(old(self).epoch_file_path@, file_name@),
                    Seq::empty(),
                )
            } else {
                old(self).files@
            },
    {
        let base_path = self.epoch_file_path.clone();
        self.create_file_at_path(base_path.as_str(), file_name)
    }

    /// The bytes of the blob at a path; none where there is no blob.
    pub fn read_from_file(&self, path: &str) -> (bytes: Vec<u8>)
        ensures
            bytes@ == blob_or_empty(self.files@, path@),
    {
        match self.files.read(path) {
            Some(bytes) => bytes,
            None => Vec::new(),
        }
    }

    /// Replaces the blob at a path. Refused, with nothing changed and no blob
    /// created, where there is none.
    pub fn write_to_file(&mut self, path: &str, content: &Vec<u8>) -> (written: bool)
        ensures
            final(self).master_file_path == old(self).master_file_path,
            final(self).epoch_file_path == old(self).epoch_file_path,
            written == old(self).files@.contains_key(path@),
            final(self).files@ == if written {
                old(self).files@.insert(path@, content@)
            } else {
                old(self).files@
            },
    {
        let is_exist = self.files.contains(path);
        if !is_exist {
            return false;
        }
        self.files.write(path, content);
        true
    }

    /// The path of a file in a directory.
    pub fn concat_file_path(&self, base_path: &str, file_name: &str) -> (full_path: String)
        ensures
            full_path@ == joined_path(base_path@, file_name@),
    {
        let mut full_path = String::new();
        full_path.append(base_path);
        full_path.append("/");
        full_path.append(file_name);
        proof {
            reveal_strlit("/");
            assert("/"@ =~= seq!['/']);
            assert(full_path@ =~= joined_path(base_path@, file_name@));
        }
        full_path
    }

    /// Creates an empty blob at the path of a file in a directory. Refused,
    /// with the blob there untouched, where there is one already.
    pub fn create_file_at_path(&mut self, base_path: &str, file_name: &str) -> (created: bool)
        ensures
            final(self).master_file_path == old(self).master_file_path,
            final(self).epoch_file_path == old(self).epoch_file_path,
            created == !old(self).files@.contains_key(joined_path(base_path@, file_name@)),
            final(self).files@ == if created {
                old(self).files@.insert(joined_path(base_path@, file_name@), Seq::empty())
            } else {
                old(self).files@
            },
    {
        let file_path = self.concat_file_path(base_path, file_name);
        let is_exist = self.files.contains(file_path.as_str());
        if is_exist {
            return false;
        }
        let empty_array: Vec<u8> = Vec::new();
        self.files.write(file_path.as_str(), &empty_array);
        true
    }
}

} // verus!
