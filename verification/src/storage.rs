//! The place where the files of tables are kept.
//!
//! The library reads and writes no file itself. It works on a [`Storage`]: a
//! data directory, by its path, and the files in it, each by its path and
//! its bytes. Whoever calls the library fills a storage from the disk and
//! carries what the library wrote back to it.
use vstd::prelude::*;
use crate::text::{first_index, lemma_first_index, lemma_first_index_is, lemma_first_index_none};

verus! {

/// One file: its path and what it holds.
#[derive(Debug)]
pub struct StoredFile {
    pub path: String,
    pub bytes: Vec<u8>,
}

/// A data directory and the files in it.
#[derive(Debug)]
pub struct Storage {
    data_dir: String,
    files: Vec<StoredFile>,
}

/// A storage as a mathematical value: the path of the data directory, and
/// the bytes of each file by its path.
pub struct StorageView {
    pub data_dir: Seq<char>,
    pub files: Map<Seq<char>, Seq<u8>>,
}

/// The paths of `files`, in order.
pub open spec fn paths_of(files: Seq<StoredFile>) -> Seq<Seq<char>> {
    files.map_values(|f: StoredFile| f.path@)
}

/// The bytes of each of `files` by its path; of two files with one path the
/// first counts.
pub open spec fn files_by_path(files: Seq<StoredFile>) -> Map<Seq<char>, Seq<u8>> {
    Map::new(
        |p: Seq<char>| first_index(paths_of(files), p) is Some,
        |p: Seq<char>| files[first_index(paths_of(files), p).unwrap()].bytes@,
    )
}

impl View for Storage {
    type V = StorageView;

    closed spec fn view(&self) -> StorageView {
        StorageView { data_dir: self.data_dir@, files: files_by_path(self.files@) }
    }
}

impl Storage {
    /// An empty storage for the data directory `data_dir`.
    pub fn new(data_dir: &str) -> (s: Storage)
        ensures
            s@.data_dir == data_dir@,
            s@.files == Map::<Seq<char>, Seq<u8>>::empty(),
    {
        let s = Storage { data_dir: data_dir.to_string(), files: Vec::new() };
        assert(s@.files =~= Map::<Seq<char>, Seq<u8>>::empty());
        s
    }

    /// The path of the data directory.
    pub fn data_dir(&self) -> (d: &String)
        ensures
            d@ == self@.data_dir,
    {
        &self.data_dir
    }

    /// Where the file at `path` stands.
    fn find(&self, path: &String) -> (r: Option<usize>)
        ensures
            match r {
                Some(i) => i < self.files.len() && first_index(paths_of(self.files@), path@) == Some(
                    i as int,
                ),
                None => first_index(paths_of(self.files@), path@) is None,
            },
    {
        let ghost paths = paths_of(self.files@);
        let mut i: usize = 0;
        while i < self.files.len()
            invariant
                i <= self.files.len(),
                paths == paths_of(self.files@),
                forall|j: int| 0 <= j < i ==> #[trigger] paths[j] != path@,
            decreases self.files.len() - i,
        {
            if self.files[i].path == *path {
                proof {
                    assert(paths[i as int] == path@);
                    lemma_first_index_is(paths, path@, i as int);
                }
                return Some(i);
            }
            i += 1;
        }
        proof {
            lemma_first_index_none(paths, path@);
        }
        None
    }

    /// Whether there is a file at `path`.
    pub fn contains(&self, path: &String) -> (b: bool)
        ensures
            b == self@.files.dom().contains(path@),
    {
        self.find(path).is_some()
    }

    /// The bytes of the file at `path`, if there is one.
    pub fn read(&self, path: &String) -> (r: Option<&Vec<u8>>)
        ensures
            match r {
                Some(bytes) => self@.files.dom().contains(path@) && bytes@ == self@.files[path@],
                None => !self@.files.dom().contains(path@),
            },
    {
        match self.find(path) {
            Some(i) => Some(&self.files[i].bytes),
            None => None,
        }
    }

    /// Puts `bytes` at `path`, in the place of what was there.
    pub fn write(&mut self, path: String, bytes: Vec<u8>)
        ensures
            final(self)@.data_dir == old(self)@.data_dir,
            final(self)@.files == old(self)@.files.insert(path@, bytes@),
    {
        let ghost before = self.files@;
        let file = StoredFile { path, bytes };
        match self.find(&file.path) {
            Some(i) => {
                self.files[i] = file;
                proof {
                    lemma_file_replaced(before, self.files@, i as int);
                }
            },
            None => {
                self.files.push(file);
                proof {
                    lemma_file_added(before, self.files@);
                }
            },
        }
    }
}

/// Replacing the first file of a path changes the bytes at that path and
/// nothing else.
proof fn lemma_file_replaced(before: Seq<StoredFile>, after: Seq<StoredFile>, i: int)
    requires
        0 <= i < before.len(),
        after.len() == before.len(),
        first_index(paths_of(before), after[i].path@) == Some(i),
        forall|k: int| 0 <= k < before.len() && k != i ==> after[k] == before[k],
    ensures
        files_by_path(after) == files_by_path(before).insert(after[i].path@, after[i].bytes@),
{
    let p = after[i].path@;
    let b = after[i].bytes@;
    let goal = files_by_path(before).insert(p, b);
    lemma_first_index(paths_of(before), p);
    assert(paths_of(after) =~= paths_of(before));
    assert forall|q: Seq<char>| files_by_path(after).dom().contains(q) == goal.dom().contains(q) by {}
    assert forall|q: Seq<char>| goal.dom().contains(q) implies files_by_path(after)[q] == goal[q] by {
        lemma_first_index(paths_of(before), q);
    }
    assert(files_by_path(after) =~= goal);
}

/// Adding a file at a path that has none adds the bytes at that path and
/// changes nothing else.
proof fn lemma_file_added(before: Seq<StoredFile>, after: Seq<StoredFile>)
    requires
        after.len() == before.len() + 1,
        first_index(paths_of(before), after.last().path@) is None,
        forall|k: int| 0 <= k < before.len() ==> after[k] == before[k],
    ensures
        files_by_path(after) == files_by_path(before).insert(after.last().path@, after.last().bytes@),
{
    let p = after.last().path@;
    let b = after.last().bytes@;
    let goal = files_by_path(before).insert(p, b);
    assert(paths_of(after).drop_last() =~= paths_of(before));
    assert(paths_of(after).last() == p);
    assert forall|q: Seq<char>| files_by_path(after).dom().contains(q) == goal.dom().contains(q) by {}
    assert forall|q: Seq<char>| goal.dom().contains(q) implies files_by_path(after)[q] == goal[q] by {
        lemma_first_index(paths_of(before), q);
    }
    assert(files_by_path(after) =~= goal);
}

} // verus!
