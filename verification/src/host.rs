//! What is known of the host's files: the answers to the questions a sandbox
//! is built from, asked before it is.

use vstd::prelude::*;

use crate::env::pair_views;
use crate::text::{copy_bytes, maybe, same_bytes};

verus! {

/// What a path names, symbolic links followed.
#[derive(Debug, Clone, Copy, PartialEq, Eq, Structural)]
pub enum FileKind {
    File,
    Directory,
    Socket,
    CharDevice,
    Other,
}

/// The kinds of the host paths that were looked at and exist.
#[derive(Debug)]
pub struct HostFiles {
    pub entries: Vec<(Vec<u8>, FileKind)>,
}

/// The models of a list of paths.
pub open spec fn file_views(entries: Seq<(Vec<u8>, FileKind)>) -> Seq<(Seq<u8>, FileKind)> {
    Seq::new(entries.len(), |i: int| (entries[i].0@, entries[i].1))
}

impl View for HostFiles {
    type V = Seq<(Seq<u8>, FileKind)>;

    open spec fn view(&self) -> Seq<(Seq<u8>, FileKind)> {
        file_views(self.entries@)
    }
}

/// What a path names, by the first entry from `i` on.
pub open spec fn kind_of(files: Seq<(Seq<u8>, FileKind)>, path: Seq<u8>, i: int) -> Option<FileKind>
    decreases files.len() - i,
{
    if i < 0 || i >= files.len() {
        None
    } else if files[i].0 == path {
        Some(files[i].1)
    } else {
        kind_of(files, path, i + 1)
    }
}

/// What a path names, if it exists.
pub open spec fn file_kind(files: Seq<(Seq<u8>, FileKind)>, path: Seq<u8>) -> Option<FileKind> {
    kind_of(files, path, 0)
}

impl HostFiles {
    /// What a path names, if it exists.
    pub fn file_type(&self, path: &[u8]) -> (r: Option<FileKind>)
        ensures
            r == file_kind(self@, path@),
    {
        let ghost all = self@;
        let mut i: usize = 0;
        while i < self.entries.len()
            invariant
                all == file_views(self.entries@),
                i <= self.entries@.len(),
                kind_of(all, path@, 0) == kind_of(all, path@, i as int),
            decreases self.entries@.len() - i,
        {
            assert(all[i as int] == (self.entries@[i as int].0@, self.entries@[i as int].1));
            if same_bytes(&self.entries[i].0, path) {
                return Some(self.entries[i].1);
            }
            i = i + 1;
        }
        None
    }

    /// Whether a path exists.
    pub fn has(&self, path: &[u8]) -> (r: bool)
        ensures
            r == (file_kind(self@, path@) is Some),
    {
        self.file_type(path).is_some()
    }
}

/// The canonical forms of the host paths that were looked up and exist: links
/// followed, `.` and `..` taken out.
#[derive(Debug)]
pub struct Canonical {
    pub entries: Vec<(Vec<u8>, Vec<u8>)>,
}

impl View for Canonical {
    type V = Seq<(Seq<u8>, Seq<u8>)>;

    open spec fn view(&self) -> Seq<(Seq<u8>, Seq<u8>)> {
        pair_views(self.entries@)
    }
}

/// The canonical form of a path, by the first entry from `i` on.
pub open spec fn real_from(table: Seq<(Seq<u8>, Seq<u8>)>, path: Seq<u8>, i: int) -> Option<Seq<u8>>
    decreases table.len() - i,
{
    if i < 0 || i >= table.len() {
        None
    } else if table[i].0 == path {
        Some(table[i].1)
    } else {
        real_from(table, path, i + 1)
    }
}

/// The canonical form of a path, where it exists.
pub open spec fn real_path(table: Seq<(Seq<u8>, Seq<u8>)>, path: Seq<u8>) -> Option<Seq<u8>> {
    real_from(table, path, 0)
}

impl Canonical {
    /// The canonical form of a path, where it exists.
    pub fn canonicalize(&self, path: &[u8]) -> (r: Option<Vec<u8>>)
        ensures
            maybe(r) == real_path(self@, path@),
    {
        let ghost all = self@;
        let mut i: usize = 0;
        while i < self.entries.len()
            invariant
                all == pair_views(self.entries@),
                i <= self.entries@.len(),
                real_from(all, path@, 0) == real_from(all, path@, i as int),
            decreases self.entries@.len() - i,
        {
            assert(all[i as int] == (self.entries@[i as int].0@, self.entries@[i as int].1@));
            if same_bytes(&self.entries[i].0, path) {
                return Some(copy_bytes(&self.entries[i].1));
            }
            i = i + 1;
        }
        None
    }
}

} // verus!
