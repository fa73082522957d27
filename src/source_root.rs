//! The set of source files of a workspace: each file's path by id, in the
//! order the files were added, kept in an `indexmap::IndexMap`.
use vstd::prelude::*;

use indexmap::IndexMap;

use crate::base::FileId;

verus! {

/// `indexmap::IndexMap`, an insertion-ordered hash map, held opaque; what a
/// map of files to paths holds is named by [`path_entries`].
#[verifier::external_type_specification]
#[verifier::external_body]
#[verifier::reject_recursive_types(K)]
#[verifier::reject_recursive_types(V)]
#[verifier::reject_recursive_types(S)]
pub struct ExIndexMap<K, V, S>(IndexMap<K, V, S>);

/// The (file, path) pairs of a map, in its order (the order `IndexMap`
/// keeps: insertion order, changed only by removals).
pub uninterp spec fn path_entries(m: IndexMap<FileId, String>) -> Seq<(FileId, Seq<char>)>;

/// Whether no two pairs share a file.
pub open spec fn files_distinct(s: Seq<(FileId, Seq<char>)>) -> bool {
    forall|a: int, b: int| 0 <= a < b < s.len() ==> s[a].0 != s[b].0
}

/// The position of `f` among the pairs, if it is there.
pub open spec fn position_of(s: Seq<(FileId, Seq<char>)>, f: FileId) -> Option<int> {
    if exists|i: int| 0 <= i < s.len() && s[i].0 == f {
        Some(choose|i: int| 0 <= i < s.len() && s[i].0 == f)
    } else {
        None
    }
}

/// The pairs after `f` is set to `p`: in place where `f` is there, else
/// last.
pub open spec fn inserted(s: Seq<(FileId, Seq<char>)>, f: FileId, p: Seq<char>) -> Seq<(FileId, Seq<char>)> {
    match position_of(s, f) {
        Some(i) => s.update(i, (f, p)),
        None => s.push((f, p)),
    }
}

/// The pairs after `f` is removed: the last pair takes its place.
pub open spec fn swap_removed(s: Seq<(FileId, Seq<char>)>, f: FileId) -> Seq<(FileId, Seq<char>)> {
    match position_of(s, f) {
        Some(i) => if i == s.len() - 1 {
            s.drop_last()
        } else {
            s.drop_last().update(i, s.last())
        },
        None => s,
    }
}

/// Relies on `IndexMap::new`: a new map is empty.
#[verifier::external_body]
fn map_new() -> (r: IndexMap<FileId, String>)
    ensures
        path_entries(r) == Seq::<(FileId, Seq<char>)>::empty(),
{
    IndexMap::new()
}

/// Relies on `IndexMap::insert`: an existing key keeps its place and gets
/// the new value, the old one returned; a new key goes last.
#[verifier::external_body]
fn map_insert(m: &mut IndexMap<FileId, String>, key: FileId, value: String) -> (r: Option<String>)
    requires
        files_distinct(path_entries(*old(m))),
    ensures
        files_distinct(path_entries(*final(m))),
        path_entries(*final(m)) == inserted(path_entries(*old(m)), key, value@),
        match position_of(path_entries(*old(m)), key) {
            Some(i) => r matches Some(v) && v@ == path_entries(*old(m))[i].1,
            None => r is None,
        },
{
    m.insert(key, value)
}

/// Relies on `IndexMap::swap_remove`: the pair of the key is removed by
/// moving the last pair into its place, and its value returned.
#[verifier::external_body]
fn map_swap_remove(m: &mut IndexMap<FileId, String>, key: FileId) -> (r: Option<String>)
    requires
        files_distinct(path_entries(*old(m))),
    ensures
        files_distinct(path_entries(*final(m))),
        path_entries(*final(m)) == swap_removed(path_entries(*old(m)), key),
        match position_of(path_entries(*old(m)), key) {
            Some(i) => r matches Some(v) && v@ == path_entries(*old(m))[i].1,
            None => r is None,
        },
{
    m.swap_remove(&key)
}

/// Relies on `IndexMap::get`: the value of the key, if it is there.
#[verifier::external_body]
fn map_get(m: &IndexMap<FileId, String>, key: FileId) -> (r: Option<&String>)
    ensures
        match position_of(path_entries(*m), key) {
            Some(i) => r matches Some(v) && v@ == path_entries(*m)[i].1,
            None => r is None,
        },
{
    m.get(&key)
}

/// Relies on `IndexMap::len`: the number of pairs.
#[verifier::external_body]
fn map_len(m: &IndexMap<FileId, String>) -> (r: usize)
    ensures
        r == path_entries(*m).len(),
{
    m.len()
}

/// Relies on `IndexMap::get_index`: the pair at a position, in order.
#[verifier::external_body]
fn map_get_index(m: &IndexMap<FileId, String>, index: usize) -> (r: Option<(&FileId, &String)>)
    ensures
        r is Some <==> index < path_entries(*m).len(),
        r matches Some(kv) ==> *kv.0 == path_entries(*m)[index as int].0 && kv.1@ == path_entries(
            *m,
        )[index as int].1,
{
    m.get_index(index)
}

/// The source files of a workspace: a path per file id, in the order added.
#[derive(Debug)]
pub struct SourceRoot {
    files: IndexMap<FileId, String>,
}

impl SourceRoot {
    /// The (file, path) pairs, in order.
    pub closed spec fn entries(&self) -> Seq<(FileId, Seq<char>)> {
        path_entries(self.files)
    }

    /// No file appears twice.
    pub closed spec fn wf(&self) -> bool {
        files_distinct(path_entries(self.files))
    }

    /// An empty source root.
    pub fn new() -> (r: SourceRoot)
        ensures
            r.wf(),
            r.entries().len() == 0,
    {
        SourceRoot { files: map_new() }
    }

    /// Sets the path of `file`; a new file goes last.
    pub fn insert(&mut self, file: FileId, path: &str)
        requires
            old(self).wf(),
        ensures
            final(self).wf(),
            final(self).entries() == inserted(old(self).entries(), file, path@),
    {
        let _ = map_insert(&mut self.files, file, path.to_owned());
    }

    /// Removes `file`, returning its path; the last file takes its place.
    pub fn remove(&mut self, file: FileId) -> (r: Option<String>)
        requires
            old(self).wf(),
        ensures
            final(self).wf(),
            final(self).entries() == swap_removed(old(self).entries(), file),
            match position_of(old(self).entries(), file) {
                Some(i) => r matches Some(p) && p@ == old(self).entries()[i].1,
                None => r is None,
            },
    {
        map_swap_remove(&mut self.files, file)
    }

    /// The path of `file`.
    pub fn path(&self, file: FileId) -> (r: Option<&str>)
        ensures
            match position_of(self.entries(), file) {
                Some(i) => r matches Some(p) && p@ == self.entries()[i].1,
                None => r is None,
            },
    {
        match map_get(&self.files, file) {
            Some(p) => Some(p.as_str()),
            None => None,
        }
    }

    /// Whether `file` is in the source root.
    pub fn contains(&self, file: FileId) -> (r: bool)
        ensures
            r == (position_of(self.entries(), file) is Some),
    {
        map_get(&self.files, file).is_some()
    }

    /// The (file, path) pairs, in order.
    pub fn iter(&self) -> (r: Vec<(FileId, &str)>)
        ensures
            r@.len() == self.entries().len(),
            forall|k: int| 0 <= k < r@.len() ==> (#[trigger] r@[k]).0 == self.entries()[k].0 && r@[k].1@ == self.entries()[k].1,
    {
        let n = map_len(&self.files);
        let mut r: Vec<(FileId, &str)> = Vec::new();
        let mut i: usize = 0;
        while i < n
            invariant
                n == self.entries().len(),
                i <= n,
                r@.len() == i,
                forall|k: int| 0 <= k < i ==> (#[trigger] r@[k]).0 == self.entries()[k].0 && r@[k].1@ == self.entries()[k].1,
            decreases n - i,
        {
            match map_get_index(&self.files, i) {
                Some((f, p)) => r.push((*f, p.as_str())),
                None => {},
            }
            i = i + 1;
        }
        r
    }

    /// The number of files.
    pub fn len(&self) -> (r: usize)
        ensures
            r == self.entries().len(),
    {
        map_len(&self.files)
    }

    /// Whether there is no file.
    pub fn is_empty(&self) -> (r: bool)
        ensures
            r == (self.entries().len() == 0),
    {
        map_len(&self.files) == 0
    }
}

impl Default for SourceRoot {
    fn default() -> (r: SourceRoot)
        ensures
            r.wf(),
            r.entries().len() == 0,
    {
        SourceRoot::new()
    }
}

} // verus!
