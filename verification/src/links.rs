//! Hard links: records of one root that share an inode share their content.
//! The first of them in traversal order owns it; the later ones point to it.

use crate::file::ConexFile;
use std::collections::HashMap;
use vstd::prelude::*;

verus! {

broadcast use vstd::std_specs::hash::group_hash_axioms;

/// Whether record `j` is the first of `files` with the inode `inode`.
pub open spec fn is_first_with(files: Seq<ConexFile>, j: int, inode: u64) -> bool {
    &&& 0 <= j < files.len()
    &&& files[j].inode == inode
    &&& forall|k: int| 0 <= k < j ==> (#[trigger] files[k]).inode != inode
}

/// The index of the first record of `files` with the inode `inode`.
pub open spec fn first_with(files: Seq<ConexFile>, inode: u64) -> int {
    choose|j: int| is_first_with(files, j, inode)
}

/// Whether record `i` of `files` is a hard-link alias: an earlier record of
/// `files` has its inode.
pub open spec fn is_alias(files: Seq<ConexFile>, i: int) -> bool {
    exists|j: int| 0 <= j < i && (#[trigger] files[j]).inode == files[i].inode
}

/// Record `i` of `files` after resolution: an alias points to the first
/// record with its inode, any other record is unchanged.
pub open spec fn resolved_record(files: Seq<ConexFile>, i: int) -> ConexFile {
    if is_alias(files, i) {
        files[i].linked_to(files[first_with(files, files[i].inode)].relative_path)
    } else {
        files[i]
    }
}

/// The records of one root after resolution.
pub open spec fn resolved(files: Seq<ConexFile>) -> Seq<ConexFile> {
    Seq::new(files.len(), |i: int| resolved_record(files, i))
}

/// Whether no record of `files` has a link target, as when they come from a
/// walk.
pub open spec fn unlinked(files: Seq<ConexFile>) -> bool {
    forall|k: int| 0 <= k < files.len() ==> (#[trigger] files[k]).hard_link_to is None
}

/// Whether record `owner` alone owns the inode `inode` among `files`: it has
/// the inode and no link target, and every other record with the inode is a
/// link to its relative path.
pub open spec fn owns_inode(files: Seq<ConexFile>, owner: int, inode: u64) -> bool {
    &&& 0 <= owner < files.len()
    &&& files[owner].inode == inode
    &&& files[owner].hard_link_to is None
    &&& forall|k: int|
        0 <= k < files.len() && k != owner && (#[trigger] files[k]).inode == inode
            ==> files[k].hard_link_to == Some(files[owner].relative_path)
}

/// Whether each inode that occurs in `files` has exactly one owner.
pub open spec fn one_owner_per_inode(files: Seq<ConexFile>) -> bool {
    forall|i: int|
        0 <= i < files.len() ==> exists|owner: int|
            owns_inode(files, owner, (#[trigger] files[i]).inode)
}

/// An inode that occurs in `files` has exactly one first record.
pub proof fn lemma_first_with(files: Seq<ConexFile>, i: int)
    requires
        0 <= i < files.len(),
    ensures
        is_first_with(files, first_with(files, files[i].inode), files[i].inode),
        first_with(files, files[i].inode) <= i,
        is_alias(files, i) <==> first_with(files, files[i].inode) < i,
        forall|j: int|
            is_first_with(files, j, files[i].inode) ==> j == first_with(files, files[i].inode),
    decreases i,
{
    let inode = files[i].inode;
    if is_alias(files, i) {
        let j = choose|j: int| 0 <= j < i && (#[trigger] files[j]).inode == files[i].inode;
        lemma_first_with(files, j);
    } else {
        assert(is_first_with(files, i, inode));
    }
    let f = first_with(files, inode);
    assert forall|j: int| is_first_with(files, j, inode) implies j == f by {
        if j < f {
        } else if f < j {
        }
    }
    if f > i {
    }
    if f < i {
    }
}

/// Resolution changes link targets only: the same records are aliases before
/// and after it, and each alias has a link target after it.
pub proof fn lemma_resolved_keeps_aliases(files: Seq<ConexFile>, i: int)
    requires
        0 <= i < files.len(),
    ensures
        resolved(files)[i] == (ConexFile {
            hard_link_to: resolved(files)[i].hard_link_to,
            ..files[i]
        }),
        is_alias(resolved(files), i) == is_alias(files, i),
        is_alias(files, i) ==> resolved(files)[i].hard_link_to is Some,
{
    let out = resolved(files);
    if is_alias(files, i) {
        let j = choose|j: int| 0 <= j < i && (#[trigger] files[j]).inode == files[i].inode;
        assert(out[j].inode == out[i].inode);
    }
    if is_alias(out, i) {
        let j = choose|j: int| 0 <= j < i && (#[trigger] out[j]).inode == out[i].inode;
    }
}

/// After resolution, each inode of a root has exactly one owner, a record
/// without a link target: the first record with that inode. Every other
/// record with the inode is a link to the owner's relative path. This holds
/// of a root whose records come without link targets.
pub proof fn lemma_one_owner_per_inode(files: Seq<ConexFile>)
    requires
        unlinked(files),
    ensures
        one_owner_per_inode(resolved(files)),
        forall|i: int|
            0 <= i < files.len() ==> owns_inode(
                resolved(files),
                first_with(files, (#[trigger] files[i]).inode),
                files[i].inode,
            ),
{
    let out = resolved(files);
    assert forall|i: int| 0 <= i < files.len() implies owns_inode(
        out,
        first_with(files, (#[trigger] files[i]).inode),
        files[i].inode,
    ) by {
        let inode = files[i].inode;
        let owner = first_with(files, inode);
        lemma_first_with(files, i);
        lemma_first_with(files, owner);
        assert forall|k: int|
            0 <= k < out.len() && k != owner && (#[trigger] out[k]).inode == inode implies out[k].hard_link_to
            == Some(out[owner].relative_path) by {
            lemma_first_with(files, k);
        }
    }
    assert forall|i: int| 0 <= i < out.len() implies exists|owner: int|
        owns_inode(out, owner, (#[trigger] out[i]).inode) by {
    }
}

/// Resolves the hard links of one root: each record whose inode an earlier
/// record has gets that first record's relative path as its link target; the
/// other records are copied as they are. Where the records come without link
/// targets, each inode has exactly one owner afterwards.
pub fn resolve_hard_links(files: &Vec<ConexFile>) -> (out: Vec<ConexFile>)
    ensures
        out@ == resolved(files@),
        unlinked(files@) ==> one_owner_per_inode(out@),
{
    let mut out: Vec<ConexFile> = Vec::new();
    let mut first_seen: HashMap<u64, usize> = HashMap::new();
    let mut i: usize = 0;
    while i < files.len()
        invariant
            i <= files.len(),
            out.len() == i,
            forall|k: int| 0 <= k < i ==> out@[k] == resolved_record(files@, k),
            forall|inode: u64| #[trigger]
                first_seen@.contains_key(inode) ==> is_first_with(
                    files@,
                    first_seen@[inode] as int,
                    inode,
                ) && first_seen@[inode] < i,
            forall|k: int| 0 <= k < i ==> first_seen@.contains_key((#[trigger] files@[k]).inode),
        decreases files.len() - i,
    {
        let mut record = files[i].duplicate();
        proof {
            lemma_first_with(files@, i as int);
        }
        match first_seen.get(&record.inode) {
            Some(first) => {
                record.hard_link_to = Some(files[*first].relative_path.clone());
            },
            None => {
                first_seen.insert(record.inode, i);
            },
        }
        out.push(record);
        i += 1;
    }
    proof {
        if unlinked(files@) {
            lemma_one_owner_per_inode(files@);
        }
    }
    out
}

} // verus!
