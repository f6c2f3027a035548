//! The walk over one ingested root, breadth first: the directories that wait
//! to be read, and the records found so far. The caller reads the
//! directories; the walk decides what is recorded and what is read next.

use crate::file::{all_whole, ConexFile};
use crate::links::unlinked;
use std::collections::VecDeque;
use std::path::PathBuf;
use vstd::prelude::*;

verus! {

/// What reading a directory tells of one of its entries.
pub struct FoundEntry {
    /// Absolute location of the entry.
    pub path: PathBuf,
    /// Location of the entry relative to the root.
    pub relative_path: PathBuf,
    /// Length in bytes; of a symbolic link, the length of the link itself.
    pub size: usize,
    /// Inode number.
    pub inode: u64,
    /// Change time in nanoseconds.
    pub ctime_nsec: i64,
    /// Whether the entry is a directory, or a symbolic link to one.
    pub is_dir: bool,
    /// Whether the entry is a symbolic link.
    pub is_symlink: bool,
}

impl FoundEntry {
    /// The record of the entry: a whole file that is nobody's hard link yet.
    pub open spec fn record(self) -> ConexFile {
        ConexFile {
            path: self.path,
            relative_path: self.relative_path,
            size: self.size,
            inode: self.inode,
            hard_link_to: None,
            ctime_nsec: self.ctime_nsec,
            start_offset: None,
            chunk_size: None,
        }
    }

    /// Whether the entry is walked into: it is a directory and no symbolic
    /// link.
    pub open spec fn is_walked_into(self) -> bool {
        self.is_dir && !self.is_symlink
    }
}

/// A walk at one moment.
pub struct Walk {
    /// The directories that wait to be read, by their relative paths, the one
    /// waiting longest first.
    pub pending: Seq<PathBuf>,
    /// The records found so far, in the order in which they were found.
    pub found: Seq<ConexFile>,
}

impl Walk {
    /// Whether the records found so far are whole files without link targets.
    pub open spec fn found_fresh(self) -> bool {
        all_whole(self.found) && unlinked(self.found)
    }

    /// The walk after `entry` was found: its record is added, and its path
    /// waits to be read where it is walked into.
    pub open spec fn visit(self, entry: FoundEntry) -> Walk {
        Walk {
            pending: if entry.is_walked_into() {
                self.pending.push(entry.relative_path)
            } else {
                self.pending
            },
            found: self.found.push(entry.record()),
        }
    }
}

/// A walk over one root.
pub struct TreeWalk {
    pending: VecDeque<PathBuf>,
    found: Vec<ConexFile>,
}

impl View for TreeWalk {
    type V = Walk;

    closed spec fn view(&self) -> Walk {
        Walk { pending: self.pending@, found: self.found@ }
    }
}

impl TreeWalk {
    /// A walk that has found nothing yet and is to read `root` first.
    pub fn new(root: PathBuf) -> (walk: TreeWalk)
        ensures
            walk@ == (Walk { pending: seq![root], found: Seq::empty() }),
            walk@.found_fresh(),
    {
        let mut pending: VecDeque<PathBuf> = VecDeque::new();
        pending.push_back(root);
        TreeWalk { pending, found: Vec::new() }
    }

    /// Takes the directory to read next, the one that waits longest. `None`
    /// when none waits: the walk is over.
    pub fn next_dir(&mut self) -> (dir: Option<PathBuf>)
        ensures
            match dir {
                Some(path) => {
                    &&& old(self)@.pending.len() > 0
                    &&& path == old(self)@.pending[0]
                    &&& final(self)@ == (Walk {
                        pending: old(self)@.pending.drop_first(),
                        found: old(self)@.found,
                    })
                },
                None => old(self)@.pending.len() == 0 && final(self)@ == old(self)@,
            },
    {
        self.pending.pop_front()
    }

    /// Takes an entry of the directory that is being read. Each entry gets
    /// one record, a whole file without a link target. A directory that is
    /// no symbolic link waits to be read when those that wait already are
    /// done.
    pub fn visit(&mut self, entry: FoundEntry)
        ensures
            final(self)@ == old(self)@.visit(entry),
            old(self)@.found_fresh() ==> final(self)@.found_fresh(),
    {
        if entry.is_dir && !entry.is_symlink {
            self.pending.push_back(entry.relative_path.clone());
        }
        self.found.push(
            ConexFile::new(
                entry.path,
                entry.relative_path,
                entry.size,
                entry.inode,
                entry.ctime_nsec,
            ),
        );
    }

    /// Ends the walk and hands out the records, in the order in which they
    /// were found.
    pub fn finish(self) -> (files: Vec<ConexFile>)
        ensures
            files@ == self@.found,
    {
        self.found
    }
}

} // verus!
