//! File records: one per filesystem object, or per fragment of one.

use std::path::PathBuf;
use vstd::prelude::*;

verus! {

/// `std::path::PathBuf`. The planner carries paths through and never looks
/// into them: to the contracts a path is a value that is equal to another or
/// not.
#[verifier::external_type_specification]
#[verifier::external_body]
pub struct ExPathBuf(PathBuf);

/// `PathBuf::clone`, believed without proof: the copy is equal to the path
/// that it was made from.
pub assume_specification[ <PathBuf as Clone>::clone ](path: &PathBuf) -> (copy: PathBuf)
    ensures
        copy == *path,
;

/// A filesystem object found under an ingested root, or one fragment of it.
#[derive(Clone, Debug)]
pub struct ConexFile {
    /// Absolute source location.
    pub path: PathBuf,
    /// Location relative to the ingested root; names the archive entry.
    pub relative_path: PathBuf,
    /// Length in bytes of the whole file, also on each of its fragments.
    pub size: usize,
    /// Inode number: identifies the content within one root.
    pub inode: u64,
    /// For a hard link, the relative path of the first record of its root with this inode.
    pub hard_link_to: Option<PathBuf>,
    /// Change time in nanoseconds, passed through.
    pub ctime_nsec: i64,
    /// First byte of a fragment; `None` on a whole file.
    pub start_offset: Option<usize>,
    /// Length of a fragment; `None` on a whole file.
    pub chunk_size: Option<usize>,
}

impl ConexFile {
    /// Whether the record stands for a whole file: it has no fragment bounds.
    pub open spec fn is_whole(self) -> bool {
        self.start_offset is None && self.chunk_size is None
    }

    /// Whether the record is stored as a link: a whole record that names its owner.
    pub open spec fn is_whole_link(self) -> bool {
        self.is_whole() && self.hard_link_to is Some
    }

    /// The bytes that the record adds to a layer: its fragment's length, or the
    /// file's size where it has none.
    pub open spec fn payload(self) -> nat {
        match self.chunk_size {
            Some(n) => n as nat,
            None => self.size as nat,
        }
    }

    /// The first byte of the file that the record covers.
    pub open spec fn span_start(self) -> nat {
        match self.start_offset {
            Some(n) => n as nat,
            None => 0,
        }
    }

    /// One past the last byte of the file that the record covers.
    pub open spec fn span_end(self) -> nat {
        self.span_start() + self.payload()
    }

    /// The record of the `len` bytes of this file that start at byte `start`.
    pub open spec fn fragment(self, start: nat, len: nat) -> ConexFile {
        ConexFile { start_offset: Some(start as usize), chunk_size: Some(len as usize), ..self }
    }

    /// The record of the last `len` bytes of this file, which start at byte
    /// `start`: the file itself where that is all of it.
    pub open spec fn tail(self, start: nat, len: nat) -> ConexFile {
        if start == 0 {
            self
        } else {
            self.fragment(start, len)
        }
    }

    /// This record as a hard link to `target`.
    pub open spec fn linked_to(self, target: PathBuf) -> ConexFile {
        ConexFile { hard_link_to: Some(target), ..self }
    }

    /// Whether the record describes the same file as `other`: all but the
    /// fragment bounds agree.
    pub open spec fn same_file(self, other: ConexFile) -> bool {
        self == (ConexFile { start_offset: self.start_offset, chunk_size: self.chunk_size, ..other })
    }

    /// The record of a whole file that is nobody's hard link yet.
    pub fn new(
        path: PathBuf,
        relative_path: PathBuf,
        size: usize,
        inode: u64,
        ctime_nsec: i64,
    ) -> (file: ConexFile)
        ensures
            file == (ConexFile {
                path,
                relative_path,
                size,
                inode,
                hard_link_to: None,
                ctime_nsec,
                start_offset: None,
                chunk_size: None,
            }),
    {
        ConexFile {
            path,
            relative_path,
            size,
            inode,
            hard_link_to: None,
            ctime_nsec,
            start_offset: None,
            chunk_size: None,
        }
    }

    /// A copy of the record.
    pub fn duplicate(&self) -> (copy: ConexFile)
        ensures
            copy == *self,
    {
        ConexFile {
            path: self.path.clone(),
            relative_path: self.relative_path.clone(),
            size: self.size,
            inode: self.inode,
            hard_link_to: match &self.hard_link_to {
                Some(target) => Some(target.clone()),
                None => None,
            },
            ctime_nsec: self.ctime_nsec,
            start_offset: self.start_offset,
            chunk_size: self.chunk_size,
        }
    }

    /// A copy of the record with the bounds of a fragment.
    pub fn cut(&self, start: usize, len: usize) -> (piece: ConexFile)
        ensures
            piece == self.fragment(start as nat, len as nat),
    {
        let mut piece = self.duplicate();
        piece.start_offset = Some(start);
        piece.chunk_size = Some(len);
        piece
    }
}

/// Whether each of `files` stands for a whole file.
pub open spec fn all_whole(files: Seq<ConexFile>) -> bool {
    forall|k: int| 0 <= k < files.len() ==> (#[trigger] files[k]).is_whole()
}

} // verus!
