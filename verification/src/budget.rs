//! The budget: no planned layer holds more bytes than the threshold, hard
//! links apart, which go whole into the open layer whatever room is left.

use crate::file::ConexFile;
use crate::links::is_alias;
use crate::packing::{packed, Packing};
use vstd::prelude::*;

verus! {

/// The bytes of a layer: the payloads of its records.
pub open spec fn layer_bytes(layer: Seq<ConexFile>) -> nat
    decreases layer.len(),
{
    if layer.len() == 0 {
        0
    } else {
        layer_bytes(layer.drop_last()) + layer.last().payload()
    }
}

/// The bytes of a layer without its whole hard links.
pub open spec fn content_bytes(layer: Seq<ConexFile>) -> nat
    decreases layer.len(),
{
    if layer.len() == 0 {
        0
    } else if layer.last().is_whole_link() {
        content_bytes(layer.drop_last())
    } else {
        content_bytes(layer.drop_last()) + layer.last().payload()
    }
}

/// Whether no layer holds more bytes than the threshold, hard links apart.
pub open spec fn keeps_budget(layers: Seq<(Seq<char>, Seq<ConexFile>)>, threshold: nat) -> bool {
    forall|k: int| 0 <= k < layers.len() ==> content_bytes((#[trigger] layers[k]).1) <= threshold
}

/// Whether the records are whole files of which each alias names a link
/// target, as they are after hard-link resolution.
pub open spec fn ready_to_pack(files: Seq<ConexFile>) -> bool {
    forall|i: int|
        0 <= i < files.len() ==> (#[trigger] files[i]).is_whole() && (is_alias(files, i)
            ==> files[i].hard_link_to is Some)
}

/// Whether the records of each root are ready to pack.
pub open spec fn roots_ready_to_pack(roots: Seq<(Seq<char>, Seq<ConexFile>)>) -> bool {
    forall|r: int| 0 <= r < roots.len() ==> ready_to_pack((#[trigger] roots[r]).1)
}

/// Whether the pass is within the budget: hard links apart, no closed layer
/// holds more than the threshold, and the open layer has room for the rest
/// of it. That room is what the bytes of the open layer, hard links
/// included, leave of the threshold.
pub open spec fn within_budget(pass: Packing) -> bool {
    &&& forall|k: int|
        0 <= k < pass.closed.len() ==> content_bytes((#[trigger] pass.closed[k]).1)
            <= pass.threshold
    &&& content_bytes(pass.open) + pass.room <= pass.threshold
    &&& pass.room == if layer_bytes(pass.open) < pass.threshold {
        pass.threshold - layer_bytes(pass.open)
    } else {
        0
    }
}

proof fn lemma_append_content(pass: Packing, record: ConexFile, bytes: nat)
    ensures
        content_bytes(pass.append(record, bytes).open) == content_bytes(pass.open) + (if record.is_whole_link() {
            0
        } else {
            record.payload()
        }),
        layer_bytes(pass.append(record, bytes).open) == layer_bytes(pass.open) + record.payload(),
{
    assert(pass.append(record, bytes).open.drop_last() =~= pass.open);
}

proof fn lemma_place_from_within_budget(
    pass: Packing,
    label: Seq<char>,
    file: ConexFile,
    offset: nat,
)
    requires
        pass.well_formed(),
        within_budget(pass),
        file.is_whole(),
        offset <= file.size,
    ensures
        pass.place_from(label, file, offset).well_formed(),
        pass.place_from(label, file, offset).threshold == pass.threshold,
        within_budget(pass.place_from(label, file, offset)),
    decreases file.size - offset, (if pass.room == 0 { 1nat } else { 0nat }),
{
    let rest = (file.size - offset) as nat;
    if file.size <= offset {
    } else if rest < pass.room {
        lemma_append_content(pass, file.tail(offset, rest), rest);
    } else {
        let piece = file.fragment(offset, pass.room);
        let full = pass.append(piece, pass.room);
        let next = full.close(label);
        lemma_append_content(pass, piece, pass.room);
        lemma_place_from_within_budget(next, label, file, offset + pass.room);
    }
}

/// Laying a whole file keeps the pass within the budget, where an alias
/// names its link target.
pub proof fn lemma_place_within_budget(
    pass: Packing,
    label: Seq<char>,
    file: ConexFile,
    alias: bool,
)
    requires
        pass.well_formed(),
        within_budget(pass),
        file.is_whole(),
        alias ==> file.hard_link_to is Some,
    ensures
        pass.place(label, file, alias).well_formed(),
        pass.place(label, file, alias).threshold == pass.threshold,
        within_budget(pass.place(label, file, alias)),
{
    if file.size == 0 {
    } else if alias {
        lemma_append_content(pass, file, file.size as nat);
    } else {
        lemma_place_from_within_budget(pass, label, file, 0);
    }
}

proof fn lemma_place_files_within_budget(
    pass: Packing,
    label: Seq<char>,
    files: Seq<ConexFile>,
    n: nat,
)
    requires
        pass.well_formed(),
        within_budget(pass),
        ready_to_pack(files),
        n <= files.len(),
    ensures
        pass.place_files(label, files, n).well_formed(),
        pass.place_files(label, files, n).threshold == pass.threshold,
        within_budget(pass.place_files(label, files, n)),
    decreases n,
{
    if n > 0 {
        lemma_place_files_within_budget(pass, label, files, (n - 1) as nat);
        lemma_place_within_budget(
            pass.place_files(label, files, (n - 1) as nat),
            label,
            files[n - 1],
            is_alias(files, n - 1),
        );
    }
}

proof fn lemma_place_roots_within_budget(
    pass: Packing,
    roots: Seq<(Seq<char>, Seq<ConexFile>)>,
    n: nat,
)
    requires
        pass.well_formed(),
        within_budget(pass),
        roots_ready_to_pack(roots),
        n <= roots.len(),
    ensures
        pass.place_roots(roots, n).well_formed(),
        pass.place_roots(roots, n).threshold == pass.threshold,
        within_budget(pass.place_roots(roots, n)),
    decreases n,
{
    if n > 0 {
        lemma_place_roots_within_budget(pass, roots, (n - 1) as nat);
        let root = roots[n - 1];
        lemma_place_files_within_budget(
            pass.place_roots(roots, (n - 1) as nat),
            root.0,
            root.1,
            root.1.len(),
        );
    }
}

/// Hard links apart, no layer of a packing holds more bytes than the
/// threshold, where the roots hold whole files of which each alias names its
/// link target.
pub proof fn lemma_packed_keeps_budget(roots: Seq<(Seq<char>, Seq<ConexFile>)>, threshold: nat)
    requires
        threshold > 0,
        roots_ready_to_pack(roots),
    ensures
        keeps_budget(packed(roots, threshold), threshold),
{
    let start = Packing::start(threshold);
    lemma_place_roots_within_budget(start, roots, roots.len());
}

/// A layer without whole hard links holds content only.
pub proof fn lemma_content_without_links(layer: Seq<ConexFile>)
    requires
        forall|j: int| 0 <= j < layer.len() ==> !(#[trigger] layer[j]).is_whole_link(),
    ensures
        content_bytes(layer) == layer_bytes(layer),
    decreases layer.len(),
{
    if layer.len() > 0 {
        lemma_content_without_links(layer.drop_last());
    }
}

} // verus!
