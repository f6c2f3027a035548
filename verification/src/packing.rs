//! Greedy packing: records are laid into layers of bounded size, in input
//! order, and a file that does not fit is cut where the layer is full.

use crate::budget::{keeps_budget, lemma_packed_keeps_budget, roots_ready_to_pack};
use crate::coverage::{covers_roots, lemma_packed_covers_roots};
use crate::file::ConexFile;
use crate::links::is_alias;
use std::collections::HashSet;
use vstd::prelude::*;

verus! {

broadcast use vstd::std_specs::hash::group_hash_axioms;

/// What a vector of labelled record lists holds: each label as text, each
/// list as a sequence.
pub open spec fn layers_view(layers: Seq<(String, Vec<ConexFile>)>) -> Seq<
    (Seq<char>, Seq<ConexFile>),
> {
    layers.map_values(|layer: (String, Vec<ConexFile>)| (layer.0@, layer.1@))
}

/// The label of the layer that is still open when the input ends.
pub open spec fn last_label() -> Seq<char> {
    "last"@
}

/// The packing pass at one moment.
pub struct Packing {
    /// The layers closed so far, oldest first, each under its label.
    pub closed: Seq<(Seq<char>, Seq<ConexFile>)>,
    /// The records of the layer that is being filled.
    pub open: Seq<ConexFile>,
    /// The bytes that the open layer can still take: the budget less the bytes
    /// laid into it, and 0 once they exceed the budget.
    pub room: nat,
    /// The budget of one layer in bytes.
    pub threshold: nat,
}

impl Packing {
    /// Whether the budget is positive and the room is within it.
    pub open spec fn well_formed(self) -> bool {
        0 < self.threshold && self.room <= self.threshold
    }

    /// The pass before the first record: nothing closed, an empty open layer.
    pub open spec fn start(threshold: nat) -> Packing {
        Packing { closed: Seq::empty(), open: Seq::empty(), room: threshold, threshold }
    }

    /// Lays `record`, which counts for `bytes` bytes, into the open layer.
    pub open spec fn append(self, record: ConexFile, bytes: nat) -> Packing {
        Packing {
            open: self.open.push(record),
            room: if bytes < self.room {
                (self.room - bytes) as nat
            } else {
                0
            },
            ..self
        }
    }

    /// Closes the open layer under `label` and opens an empty one.
    pub open spec fn close(self, label: Seq<char>) -> Packing {
        Packing {
            closed: self.closed.push((label, self.open)),
            open: Seq::empty(),
            room: self.threshold,
            ..self
        }
    }

    /// Lays the bytes of `file` from byte `offset` on. They fit where they are
    /// fewer than the room that is left. While they do not fit, a fragment as
    /// long as that room fills the open layer, which is closed under `label`;
    /// where no room is left, that fragment is empty. What fits at the end
    /// goes into the open layer in one record. Under a budget of no bytes
    /// nothing is laid.
    pub open spec fn place_from(self, label: Seq<char>, file: ConexFile, offset: nat) -> Packing
        decreases file.size - offset, (if self.room == 0 { 1nat } else { 0nat }),
    {
        let rest = (file.size - offset) as nat;
        if file.size <= offset || self.threshold == 0 {
            self
        } else if rest < self.room {
            self.append(file.tail(offset, rest), rest)
        } else {
            self.append(file.fragment(offset, self.room), self.room).close(label).place_from(
                label,
                file,
                offset + self.room,
            )
        }
    }

    /// Lays one file. An alias is never cut: it goes whole into the open
    /// layer, whatever room is left. A file of no bytes leaves no record.
    pub open spec fn place(self, label: Seq<char>, file: ConexFile, alias: bool) -> Packing {
        if file.size == 0 {
            self
        } else if alias {
            self.append(file, file.size as nat)
        } else {
            self.place_from(label, file, 0)
        }
    }

    /// Lays the first `n` records of a root. A record is an alias when an
    /// earlier record of the root has its inode.
    pub open spec fn place_files(self, label: Seq<char>, files: Seq<ConexFile>, n: nat) -> Packing
        decreases n,
    {
        if n == 0 {
            self
        } else {
            self.place_files(label, files, (n - 1) as nat).place(
                label,
                files[n - 1],
                is_alias(files, n - 1),
            )
        }
    }

    /// Lays the first `n` roots, one after the other into the same open layer.
    pub open spec fn place_roots(self, roots: Seq<(Seq<char>, Seq<ConexFile>)>, n: nat) -> Packing
        decreases n,
    {
        if n == 0 {
            self
        } else {
            let root = roots[n - 1];
            self.place_roots(roots, (n - 1) as nat).place_files(root.0, root.1, root.1.len())
        }
    }

    /// The plan at the end of the input: the closed layers, then the open one
    /// under the label "last" unless it is empty.
    pub open spec fn finish(self) -> Seq<(Seq<char>, Seq<ConexFile>)> {
        if self.open.len() == 0 {
            self.closed
        } else {
            self.closed.push((last_label(), self.open))
        }
    }
}

/// The plan for `roots` under a budget of `threshold` bytes per layer.
pub open spec fn packed(roots: Seq<(Seq<char>, Seq<ConexFile>)>, threshold: nat) -> Seq<
    (Seq<char>, Seq<ConexFile>),
> {
    Packing::start(threshold).place_roots(roots, roots.len()).finish()
}

/// The accumulator of the packing pass: the layers closed so far and the one
/// being filled.
pub struct LayerPacker {
    closed: Vec<(String, Vec<ConexFile>)>,
    open: Vec<ConexFile>,
    room: usize,
    threshold: usize,
}

impl View for LayerPacker {
    type V = Packing;

    closed spec fn view(&self) -> Packing {
        Packing {
            closed: layers_view(self.closed@),
            open: self.open@,
            room: self.room as nat,
            threshold: self.threshold as nat,
        }
    }
}

impl LayerPacker {
    /// A packer with nothing in it, for layers of at most `threshold` bytes.
    pub fn new(threshold: usize) -> (packer: LayerPacker)
        requires
            threshold > 0,
        ensures
            packer@ == Packing::start(threshold as nat),
    {
        let packer = LayerPacker { closed: Vec::new(), open: Vec::new(), room: threshold, threshold };
        assert(layers_view(packer.closed@) =~= Seq::empty());
        packer
    }

    fn append(&mut self, record: ConexFile, bytes: usize)
        ensures
            final(self)@ == old(self)@.append(record, bytes as nat),
    {
        self.open.push(record);
        self.room = if bytes < self.room {
            self.room - bytes
        } else {
            0
        };
    }

    fn close(&mut self, label: &String)
        ensures
            final(self)@ == old(self)@.close(label@),
    {
        let mut layer: Vec<ConexFile> = Vec::new();
        std::mem::swap(&mut layer, &mut self.open);
        self.closed.push((label.clone(), layer));
        self.room = self.threshold;
        assert(layers_view(self.closed@) =~= layers_view(old(self).closed@).push(
            (label@, old(self).open@),
        ));
    }

    /// Lays one file into the layers. An alias goes whole into the open
    /// layer, whatever room is left. Any other file is cut wherever the open
    /// layer is full, and each layer that a cut fills is closed under `label`.
    /// A file of no bytes leaves no record.
    pub fn place(&mut self, label: &String, file: &ConexFile, alias: bool)
        requires
            old(self)@.well_formed(),
        ensures
            final(self)@ == old(self)@.place(label@, *file, alias),
            final(self)@.well_formed(),
    {
        if file.size == 0 {
            return ;
        }
        if alias {
            self.append(file.duplicate(), file.size);
            return ;
        }
        let mut offset: usize = 0;
        while offset < file.size && file.size - offset >= self.room
            invariant
                offset <= file.size,
                self@.well_formed(),
                self@.place_from(label@, *file, offset as nat) == old(self)@.place_from(
                    label@,
                    *file,
                    0,
                ),
            decreases file.size - offset, (if self.room == 0 { 1nat } else { 0nat }),
        {
            let room = self.room;
            self.append(file.cut(offset, room), room);
            self.close(label);
            offset = offset + room;
        }
        if offset < file.size {
            let rest = file.size - offset;
            let record = if offset == 0 {
                file.duplicate()
            } else {
                file.cut(offset, rest)
            };
            self.append(record, rest);
        }
    }

    /// Lays the records of one root, in order. A record is an alias when an
    /// earlier record of the root has its inode.
    pub fn place_files(&mut self, label: &String, files: &Vec<ConexFile>)
        requires
            old(self)@.well_formed(),
        ensures
            final(self)@ == old(self)@.place_files(label@, files@, files@.len()),
            final(self)@.well_formed(),
    {
        let mut seen: HashSet<u64> = HashSet::new();
        let mut i: usize = 0;
        while i < files.len()
            invariant
                i <= files.len(),
                self@.well_formed(),
                self@ == old(self)@.place_files(label@, files@, i as nat),
                forall|inode: u64|
                    seen@.contains(inode) <==> exists|j: int|
                        0 <= j < i && (#[trigger] files@[j]).inode == inode,
            decreases files.len() - i,
        {
            let alias = !seen.insert(files[i].inode);
            self.place(label, &files[i], alias);
            i += 1;
        }
    }

    /// Lays the records of all `roots`, root after root.
    pub fn place_roots(&mut self, roots: &Vec<(String, Vec<ConexFile>)>)
        requires
            old(self)@.well_formed(),
        ensures
            final(self)@ == old(self)@.place_roots(layers_view(roots@), roots@.len()),
            final(self)@.well_formed(),
    {
        let mut r: usize = 0;
        while r < roots.len()
            invariant
                r <= roots.len(),
                self@.well_formed(),
                self@ == old(self)@.place_roots(layers_view(roots@), r as nat),
            decreases roots.len() - r,
        {
            self.place_files(&roots[r].0, &roots[r].1);
            r += 1;
        }
    }

    /// Ends the pass and hands out the plan: the closed layers, then the open
    /// one under the label "last" unless it is empty.
    pub fn finish(self) -> (plan: Vec<(String, Vec<ConexFile>)>)
        ensures
            layers_view(plan@) == self@.finish(),
    {
        let mut plan = self.closed;
        if self.open.len() > 0 {
            plan.push(("last".to_owned(), self.open));
        }
        plan
    }
}

/// Packs the records of `roots` into layers of at most `split_threshold`
/// bytes. One open layer runs through all the roots in order, so that small
/// roots share a layer and a large file is spread over several.
///
/// The layers hold, for each whole file of the roots, records that cover it
/// from its first byte to its last. Where the roots hold whole files of which
/// each alias names its link target, no layer holds more than
/// `split_threshold` bytes, hard links apart.
pub fn pack_layers(roots: &Vec<(String, Vec<ConexFile>)>, split_threshold: usize) -> (plan: Vec<
    (String, Vec<ConexFile>),
>)
    requires
        split_threshold > 0,
    ensures
        layers_view(plan@) == packed(layers_view(roots@), split_threshold as nat),
        covers_roots(layers_view(plan@), layers_view(roots@), split_threshold as nat),
        roots_ready_to_pack(layers_view(roots@)) ==> keeps_budget(
            layers_view(plan@),
            split_threshold as nat,
        ),
{
    let mut packer = LayerPacker::new(split_threshold);
    packer.place_roots(roots);
    proof {
        lemma_packed_covers_roots(layers_view(roots@), split_threshold as nat);
        if roots_ready_to_pack(layers_view(roots@)) {
            lemma_packed_keeps_budget(layers_view(roots@), split_threshold as nat);
        }
    }
    packer.finish()
}

} // verus!
