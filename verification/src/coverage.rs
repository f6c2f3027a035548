//! Coverage: the records that packing lays for a file cover the file from its
//! first byte to its last, without gap or overlap.

use crate::file::ConexFile;
use crate::links::is_alias;
use crate::packing::{packed, Packing};
use vstd::prelude::*;

verus! {

/// The records of `layers` in order, layer after layer.
pub open spec fn layer_records(layers: Seq<(Seq<char>, Seq<ConexFile>)>) -> Seq<ConexFile>
    decreases layers.len(),
{
    if layers.len() == 0 {
        Seq::empty()
    } else {
        layer_records(layers.drop_last()) + layers.last().1
    }
}

/// All records laid so far, in order: those of the closed layers, then those
/// of the open one.
pub open spec fn records(pass: Packing) -> Seq<ConexFile> {
    layer_records(pass.closed) + pass.open
}

/// Whether `pieces` are records of `file` that cover it from byte `from` to
/// its last byte: the first starts at `from`, each one starts where the one
/// before it ends, and the last ends with the file.
pub open spec fn covers_from(pieces: Seq<ConexFile>, file: ConexFile, from: nat) -> bool
    decreases pieces.len(),
{
    if pieces.len() == 0 {
        from == file.size
    } else {
        &&& pieces[0].same_file(file)
        &&& pieces[0].span_start() == from
        &&& covers_from(pieces.drop_first(), file, pieces[0].span_end())
    }
}

/// The pass after the first `i` records of root `r`, the roots before it
/// being done.
pub open spec fn packed_upto(
    roots: Seq<(Seq<char>, Seq<ConexFile>)>,
    threshold: nat,
    r: int,
    i: nat,
) -> Packing {
    Packing::start(threshold).place_roots(roots, r as nat).place_files(roots[r].0, roots[r].1, i)
}

/// Whether `layers` hold, for each whole file of `roots`, records that cover
/// it from its first byte to its last without gap or overlap: those between
/// the records laid before the file and those laid after it.
pub open spec fn covers_roots(
    layers: Seq<(Seq<char>, Seq<ConexFile>)>,
    roots: Seq<(Seq<char>, Seq<ConexFile>)>,
    threshold: nat,
) -> bool {
    forall|r: int, i: int|
        0 <= r < roots.len() && 0 <= i < roots[r].1.len() && (#[trigger] roots[r].1[i]).is_whole()
            ==> {
            let from = records(packed_upto(roots, threshold, r, i as nat)).len() as int;
            let to = records(packed_upto(roots, threshold, r, (i + 1) as nat)).len() as int;
            &&& from <= to <= layer_records(layers).len()
            &&& covers_from(layer_records(layers).subrange(from, to), roots[r].1[i], 0)
        }
}

proof fn lemma_records_push(pass: Packing, record: ConexFile, bytes: nat, label: Seq<char>)
    ensures
        records(pass.append(record, bytes)) == records(pass).push(record),
        records(pass.append(record, bytes).close(label)) == records(pass).push(record),
{
    let closed = pass.append(record, bytes).close(label);
    assert(closed.closed.drop_last() =~= pass.closed);
}

proof fn lemma_prefix_chain(a: Seq<ConexFile>, b: Seq<ConexFile>, c: Seq<ConexFile>)
    requires
        a.is_prefix_of(b),
        b.is_prefix_of(c),
    ensures
        a.is_prefix_of(c),
{
}

proof fn lemma_place_from_covers(pass: Packing, label: Seq<char>, file: ConexFile, offset: nat)
    requires
        pass.well_formed(),
        offset <= file.size,
    ensures
        pass.place_from(label, file, offset).well_formed(),
        records(pass).is_prefix_of(records(pass.place_from(label, file, offset))),
        file.is_whole() ==> covers_from(
            records(pass.place_from(label, file, offset)).skip(records(pass).len() as int),
            file,
            offset,
        ),
    decreases file.size - offset, (if pass.room == 0 { 1nat } else { 0nat }),
{
    let after = pass.place_from(label, file, offset);
    let rest = (file.size - offset) as nat;
    let at = records(pass).len() as int;
    let pieces = records(after).skip(at);
    if file.size <= offset {
    } else if rest < pass.room {
        lemma_records_push(pass, file.tail(offset, rest), rest, label);
        assert(covers_from(pieces.drop_first(), file, file.size as nat));
    } else {
        let piece = file.fragment(offset, pass.room);
        let next = pass.append(piece, pass.room).close(label);
        lemma_records_push(pass, piece, pass.room, label);
        lemma_place_from_covers(next, label, file, offset + pass.room);
        assert(pieces[0] == records(next)[at]);
        assert(pieces.drop_first() =~= records(after).skip(at + 1));
    }
}

/// Laying a file keeps the records laid before it and adds records after
/// them. Where the file comes as a whole record, the added records cover it
/// from its first byte to its last without gap or overlap.
pub proof fn lemma_place_covers(pass: Packing, label: Seq<char>, file: ConexFile, alias: bool)
    requires
        pass.well_formed(),
    ensures
        pass.place(label, file, alias).well_formed(),
        records(pass).is_prefix_of(records(pass.place(label, file, alias))),
        file.is_whole() ==> covers_from(
            records(pass.place(label, file, alias)).skip(records(pass).len() as int),
            file,
            0,
        ),
{
    if file.size == 0 {
    } else if alias {
        let pieces = records(pass.place(label, file, alias)).skip(records(pass).len() as int);
        lemma_records_push(pass, file, file.size as nat, label);
        assert(covers_from(pieces.drop_first(), file, file.size as nat));
    } else {
        lemma_place_from_covers(pass, label, file, 0);
    }
}

proof fn lemma_place_files_extends(
    pass: Packing,
    label: Seq<char>,
    files: Seq<ConexFile>,
    n: nat,
    m: nat,
)
    requires
        pass.well_formed(),
        n <= m <= files.len(),
    ensures
        pass.place_files(label, files, m).well_formed(),
        records(pass.place_files(label, files, n)).is_prefix_of(
            records(pass.place_files(label, files, m)),
        ),
    decreases m,
{
    if m > 0 {
        let before = pass.place_files(label, files, (m - 1) as nat);
        lemma_place_files_extends(pass, label, files, if n < m { n } else { (m - 1) as nat }, (m - 1) as nat);
        lemma_place_covers(before, label, files[m - 1], is_alias(files, m - 1));
        if n < m {
            lemma_prefix_chain(
                records(pass.place_files(label, files, n)),
                records(before),
                records(pass.place_files(label, files, m)),
            );
        }
    }
}

proof fn lemma_place_roots_extends(
    pass: Packing,
    roots: Seq<(Seq<char>, Seq<ConexFile>)>,
    n: nat,
    m: nat,
)
    requires
        pass.well_formed(),
        n <= m <= roots.len(),
    ensures
        pass.place_roots(roots, m).well_formed(),
        records(pass.place_roots(roots, n)).is_prefix_of(records(pass.place_roots(roots, m))),
    decreases m,
{
    if m > 0 {
        let root = roots[m - 1];
        let before = pass.place_roots(roots, (m - 1) as nat);
        lemma_place_roots_extends(pass, roots, if n < m { n } else { (m - 1) as nat }, (m - 1) as nat);
        lemma_place_files_extends(before, root.0, root.1, 0, root.1.len());
        if n < m {
            lemma_prefix_chain(
                records(pass.place_roots(roots, n)),
                records(before),
                records(pass.place_roots(roots, m)),
            );
        }
    }
}

/// A finished plan holds the records laid during the pass, in the same order.
pub proof fn lemma_finish_keeps_records(pass: Packing)
    ensures
        layer_records(pass.finish()) == records(pass),
{
    if pass.open.len() > 0 {
        assert(pass.finish().drop_last() =~= pass.closed);
    }
}

/// In a plan, the records of each input file stand together, and where the
/// file comes as a whole record they cover it from its first byte to its last
/// without gap or overlap. The records of file `i` of root `r` are those
/// that the pass lays between its states before and after that file.
pub proof fn lemma_plan_covers(
    roots: Seq<(Seq<char>, Seq<ConexFile>)>,
    threshold: nat,
    r: int,
    i: int,
)
    requires
        threshold > 0,
        0 <= r < roots.len(),
        0 <= i < roots[r].1.len(),
    ensures
        ({
            let all = layer_records(packed(roots, threshold));
            let from = records(packed_upto(roots, threshold, r, i as nat)).len();
            let to = records(packed_upto(roots, threshold, r, (i + 1) as nat)).len();
            &&& from <= to <= all.len()
            &&& all.subrange(0, to as int) == records(
                packed_upto(roots, threshold, r, (i + 1) as nat),
            )
            &&& roots[r].1[i].is_whole() ==> covers_from(
                all.subrange(from as int, to as int),
                roots[r].1[i],
                0,
            )
        }),
{
    let start = Packing::start(threshold);
    let label = roots[r].0;
    let files = roots[r].1;
    let root_start = start.place_roots(roots, r as nat);
    let before = packed_upto(roots, threshold, r, i as nat);
    let after = packed_upto(roots, threshold, r, (i + 1) as nat);
    let root_end = start.place_roots(roots, (r + 1) as nat);
    let end = start.place_roots(roots, roots.len());
    let all = layer_records(packed(roots, threshold));
    lemma_place_roots_extends(start, roots, 0, r as nat);
    lemma_place_files_extends(root_start, label, files, 0, i as nat);
    lemma_place_covers(before, label, files[i], is_alias(files, i));
    lemma_place_files_extends(root_start, label, files, (i + 1) as nat, files.len());
    lemma_place_roots_extends(start, roots, (r + 1) as nat, roots.len());
    lemma_prefix_chain(records(after), records(root_end), records(end));
    lemma_finish_keeps_records(end);
    let from = records(before).len() as int;
    let to = records(after).len() as int;
    assert(all.subrange(from, to) =~= records(after).skip(from));
}

/// A packing holds, for each whole file of its roots, records that cover it
/// from its first byte to its last without gap or overlap.
pub proof fn lemma_packed_covers_roots(roots: Seq<(Seq<char>, Seq<ConexFile>)>, threshold: nat)
    requires
        threshold > 0,
    ensures
        covers_roots(packed(roots, threshold), roots, threshold),
{
    assert forall|r: int, i: int|
        0 <= r < roots.len() && 0 <= i < roots[r].1.len() && (#[trigger] roots[r].1[i]).is_whole() implies {
        let from = records(packed_upto(roots, threshold, r, i as nat)).len() as int;
        let to = records(packed_upto(roots, threshold, r, (i + 1) as nat)).len() as int;
        &&& from <= to <= layer_records(packed(roots, threshold)).len()
        &&& covers_from(
            layer_records(packed(roots, threshold)).subrange(from, to),
            roots[r].1[i],
            0,
        )
    } by {
        lemma_plan_covers(roots, threshold, r, i);
    }
}

/// The pieces of the files follow each other in a plan in input order, and
/// the plan holds nothing else: the pass starts without records, it goes from
/// the last file of a root to the first of the next, and the plan holds the
/// records laid up to the last file of the last root.
pub proof fn lemma_plan_holds_pieces_only(
    roots: Seq<(Seq<char>, Seq<ConexFile>)>,
    threshold: nat,
    r: int,
)
    requires
        threshold > 0,
        0 <= r < roots.len(),
    ensures
        records(packed_upto(roots, threshold, 0, 0)).len() == 0,
        r + 1 < roots.len() ==> packed_upto(roots, threshold, r, roots[r].1.len())
            == packed_upto(roots, threshold, r + 1, 0),
        r + 1 == roots.len() ==> records(packed_upto(roots, threshold, r, roots[r].1.len()))
            == layer_records(packed(roots, threshold)),
{
    let start = Packing::start(threshold);
    lemma_finish_keeps_records(start.place_roots(roots, roots.len()));
}

} // verus!
