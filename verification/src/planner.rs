//! The planner: it takes the records of each ingested root and plans the
//! layers that hold them.

use crate::budget::{keeps_budget, lemma_packed_keeps_budget, ready_to_pack};
use crate::coverage::{covers_roots, lemma_packed_covers_roots};
use crate::file::{all_whole, ConexFile};
use crate::links::{is_alias, lemma_resolved_keeps_aliases, resolve_hard_links, resolved};
use crate::packing::{last_label, layers_view, pack_layers, packed, Packing};
use vstd::arithmetic::div_mod::lemma_fundamental_div_mod_converse;
use vstd::prelude::*;

verus! {

/// The roots after hard-link resolution: each root by itself, under its label.
pub open spec fn resolved_roots(roots: Seq<(Seq<char>, Seq<ConexFile>)>) -> Seq<
    (Seq<char>, Seq<ConexFile>),
> {
    roots.map_values(|root: (Seq<char>, Seq<ConexFile>)| (root.0, resolved(root.1)))
}

/// The plan for `roots` under a budget of `threshold` bytes per layer: the
/// hard links of each root are resolved, then all records are packed.
pub open spec fn planned(roots: Seq<(Seq<char>, Seq<ConexFile>)>, threshold: nat) -> Seq<
    (Seq<char>, Seq<ConexFile>),
> {
    packed(resolved_roots(roots), threshold)
}

/// Plans the layers for the roots ingested so far.
pub struct ConexPlanner {
    /// The ingested roots in order, each with its label and its records in
    /// traversal order.
    pub layer_to_files: Vec<(String, Vec<ConexFile>)>,
    /// The most bytes that one planned layer may hold.
    pub split_threshold: usize,
}

impl ConexPlanner {
    /// The ingested roots: each label as text, each record list as a sequence.
    pub open spec fn roots(self) -> Seq<(Seq<char>, Seq<ConexFile>)> {
        layers_view(self.layer_to_files@)
    }

    /// A planner without roots, for layers of at most 512 MiB.
    pub fn default() -> (planner: Self)
        ensures
            planner.layer_to_files@.len() == 0,
            planner.split_threshold == 512 * 1024 * 1024,
    {
        Self { layer_to_files: Vec::new(), split_threshold: 512 * 1024 * 1024 }
    }

    /// Takes in one root: `files` are the records found under `dir_path`, in
    /// traversal order. The root is labelled with its path.
    pub fn ingest_dir(&mut self, dir_path: &str, files: Vec<ConexFile>)
        ensures
            final(self).roots() == old(self).roots().push((dir_path@, files@)),
            final(self).split_threshold == old(self).split_threshold,
    {
        self.layer_to_files.push((dir_path.to_owned(), files));
    }

    /// Plans the layers. Within each root, a record whose inode an earlier one
    /// has becomes a hard link to the first such record. Then the records of
    /// all roots are packed in order into layers of at most `split_threshold`
    /// bytes.
    ///
    /// The plan holds, for each whole file of the input, records that cover
    /// it from its first byte to its last; they describe the file as it is
    /// after hard-link resolution. Where all input records are whole files,
    /// no layer holds more than `split_threshold` bytes, hard links apart.
    pub fn generate_plan(self) -> (plan: Vec<(String, Vec<ConexFile>)>)
        requires
            self.split_threshold > 0,
        ensures
            layers_view(plan@) == planned(self.roots(), self.split_threshold as nat),
            covers_roots(
                layers_view(plan@),
                resolved_roots(self.roots()),
                self.split_threshold as nat,
            ),
            whole_files(self.roots()) ==> keeps_budget(
                layers_view(plan@),
                self.split_threshold as nat,
            ),
    {
        let mut roots: Vec<(String, Vec<ConexFile>)> = Vec::new();
        let mut r: usize = 0;
        while r < self.layer_to_files.len()
            invariant
                r <= self.layer_to_files.len(),
                roots.len() == r,
                forall|k: int|
                    0 <= k < r ==> (#[trigger] roots@[k]).0@ == self.layer_to_files@[k].0@
                        && roots@[k].1@ == resolved(self.layer_to_files@[k].1@),
            decreases self.layer_to_files.len() - r,
        {
            let root = &self.layer_to_files[r];
            roots.push((root.0.clone(), resolve_hard_links(&root.1)));
            r += 1;
        }
        assert(layers_view(roots@) =~= resolved_roots(self.roots()));
        proof {
            lemma_packed_covers_roots(resolved_roots(self.roots()), self.split_threshold as nat);
            if whole_files(self.roots()) {
                lemma_plan_keeps_budget(self.roots(), self.split_threshold as nat);
            }
        }
        pack_layers(&roots, self.split_threshold)
    }
}

/// Whether every record of `roots` stands for a whole file.
pub open spec fn whole_files(roots: Seq<(Seq<char>, Seq<ConexFile>)>) -> bool {
    forall|r: int| 0 <= r < roots.len() ==> all_whole((#[trigger] roots[r]).1)
}

/// Hard links apart, no layer of a plan holds more bytes than the threshold,
/// where the input records are whole files.
pub proof fn lemma_plan_keeps_budget(roots: Seq<(Seq<char>, Seq<ConexFile>)>, threshold: nat)
    requires
        threshold > 0,
        whole_files(roots),
    ensures
        keeps_budget(planned(roots, threshold), threshold),
{
    let links = resolved_roots(roots);
    assert forall|r: int| 0 <= r < links.len() implies ready_to_pack((#[trigger] links[r]).1) by {
        let files = roots[r].1;
        assert forall|i: int| 0 <= i < links[r].1.len() implies (#[trigger] links[r].1[i]).is_whole()
            && (is_alias(links[r].1, i) ==> links[r].1[i].hard_link_to is Some) by {
            lemma_resolved_keeps_aliases(files, i);
        }
    }
    lemma_packed_keeps_budget(links, threshold);
}

/// The layers that `size` bytes take under a budget of `threshold` bytes
/// each, the last of them perhaps filled in part.
pub open spec fn layers_needed(size: nat, threshold: nat) -> nat {
    ((size + threshold - 1) / (threshold as int)) as nat
}

/// The plan for one root with one file is what laying that file into an
/// empty pass gives.
proof fn lemma_plan_of_one(label: Seq<char>, file: ConexFile, threshold: nat)
    ensures
        planned(seq![(label, seq![file])], threshold) == Packing::start(threshold).place(
            label,
            file,
            false,
        ).finish(),
{
    let files = seq![file];
    let roots = seq![(label, files)];
    assert(resolved(files) =~= files);
    assert(resolved_roots(roots) =~= roots);
    let start = Packing::start(threshold);
    assert(start.place_roots(roots, 0) == start);
    assert(start.place_files(label, files, 0) == start);
}

proof fn lemma_split_from(pass: Packing, label: Seq<char>, file: ConexFile, k: nat)
    requires
        pass.threshold > 0,
        pass.room == pass.threshold,
        pass.open.len() == 0,
        k * pass.threshold <= file.size,
        pass.closed.len() == k,
        forall|j: int|
            0 <= j < k ==> #[trigger] pass.closed[j] == (
                label,
                seq![file.fragment((j * pass.threshold) as nat, pass.threshold)],
            ),
    ensures
        ({
            let after = pass.place_from(label, file, k * pass.threshold);
            let full = file.size as int / pass.threshold as int;
            let rest = file.size as int % pass.threshold as int;
            &&& after.closed.len() == full
            &&& forall|j: int|
                0 <= j < full ==> #[trigger] after.closed[j] == (
                    label,
                    seq![file.fragment((j * pass.threshold) as nat, pass.threshold)],
                )
            &&& rest == 0 ==> after.open.len() == 0
            &&& rest != 0 ==> after.open == seq![
                file.tail((full * pass.threshold) as nat, rest as nat),
            ]
        }),
    decreases file.size - k * pass.threshold,
{
    let t = pass.threshold;
    let offset = k * t;
    let left = (file.size - offset) as nat;
    if left < t {
        lemma_fundamental_div_mod_converse(file.size as int, t as int, k as int, left as int);
        if left > 0 {
            assert(pass.append(file.tail(offset, left), left).open =~= seq![
                file.tail(offset, left),
            ]);
        }
    } else {
        let piece = file.fragment(offset, t);
        let next = pass.append(piece, t).close(label);
        assert((k + 1) * t == offset + t) by (nonlinear_arith)
            requires
                offset == k * t,
        ;
        assert(pass.open.push(piece) =~= seq![piece]);
        lemma_split_from(next, label, file, k + 1);
    }
}

/// A file at least as large as the threshold, alone in the input, is cut into
/// fragments of which each has a layer to itself: as many as the file takes
/// layers, each as long as the threshold but the last, which holds what is
/// left. The layers that a fragment fills bear the root's label.
pub proof fn lemma_lone_file_is_split(label: Seq<char>, file: ConexFile, threshold: nat)
    requires
        0 < threshold <= file.size,
    ensures
        ({
            let plan = planned(seq![(label, seq![file])], threshold);
            &&& plan.len() == layers_needed(file.size as nat, threshold)
            &&& forall|k: int|
                0 <= k < plan.len() ==> (#[trigger] plan[k]).1 == seq![
                    file.fragment(
                        (k * threshold) as nat,
                        vstd::math::min(threshold as int, file.size - k * threshold) as nat,
                    ),
                ]
            &&& forall|k: int|
                0 <= k < plan.len() ==> (#[trigger] plan[k]).0 == (if (k + 1) * threshold
                    <= file.size {
                    label
                } else {
                    last_label()
                })
        }),
{
    let t = threshold as int;
    let size = file.size as int;
    let start = Packing::start(threshold);
    let after = start.place_from(label, file, 0);
    let plan = after.finish();
    let full = size / t;
    let rest = size % t;
    lemma_plan_of_one(label, file, threshold);
    lemma_split_from(start, label, file, 0);
    vstd::arithmetic::div_mod::lemma_fundamental_div_mod(size, t);
    assert(full >= 1) by (nonlinear_arith)
        requires
            size == t * full + rest,
            0 <= rest < t,
            t <= size,
    ;
    if rest == 0 {
        lemma_fundamental_div_mod_converse(size + t - 1, t, full, t - 1);
    } else {
        assert(size + t - 1 == (full + 1) * t + (rest - 1)) by (nonlinear_arith)
            requires
                size == t * full + rest,
        ;
        lemma_fundamental_div_mod_converse(size + t - 1, t, full + 1, rest - 1);
    }
    assert forall|k: int| 0 <= k < plan.len() implies (#[trigger] plan[k]).1 == seq![
        file.fragment(
            (k * threshold) as nat,
            vstd::math::min(threshold as int, file.size - k * threshold) as nat,
        ),
    ] && plan[k].0 == (if (k + 1) * threshold <= file.size {
        label
    } else {
        last_label()
    }) by {
        assert((k + 1) * t == k * t + t) by (nonlinear_arith);
        if k < full {
            assert(k * t + t <= size) by (nonlinear_arith)
                requires
                    size == t * full + rest,
                    0 <= rest,
                    k < full,
                    0 < t,
            ;
        } else {
            assert(size - k * t == rest) by (nonlinear_arith)
                requires
                    size == t * full + rest,
                    k == full,
            ;
            assert(full * t > 0) by (nonlinear_arith)
                requires
                    full >= 1,
                    t > 0,
            ;
        }
    }
}

/// Two roots of one file each share a layer where the two files together are
/// within the threshold. Below the threshold both stand whole in the layer
/// that is open at the end. Where they reach it exactly, the second file is
/// one fragment that fills the layer, which is closed under its root's label.
pub proof fn lemma_small_roots_share_a_layer(
    first_label: Seq<char>,
    first: ConexFile,
    second_label: Seq<char>,
    second: ConexFile,
    threshold: nat,
)
    requires
        0 < first.size,
        0 < second.size,
        first.size + second.size <= threshold,
    ensures
        planned(seq![(first_label, seq![first]), (second_label, seq![second])], threshold) == (if first.size
            + second.size < threshold {
            seq![(last_label(), seq![first, second])]
        } else {
            seq![(second_label, seq![first, second.fragment(0, second.size as nat)])]
        }),
{
    let roots = seq![(first_label, seq![first]), (second_label, seq![second])];
    assert(resolved(seq![first]) =~= seq![first]);
    assert(resolved(seq![second]) =~= seq![second]);
    assert(resolved_roots(roots) =~= roots);
    let start = Packing::start(threshold);
    assert(start.place_roots(roots, 0) == start);
    assert(start.place_files(first_label, seq![first], 0) == start);
    let one = start.place(first_label, first, false);
    assert(start.place_roots(roots, 1) == one);
    assert(one.place_files(second_label, seq![second], 0) == one);
    let both = one.place(second_label, second, false);
    if first.size + second.size < threshold {
        assert(both.open =~= seq![first, second]);
    } else {
        let piece = second.fragment(0, second.size as nat);
        let closed = one.append(piece, second.size as nat).close(second_label);
        assert(closed.place_from(second_label, second, second.size as nat) == closed);
        assert(closed.closed[0].1 =~= seq![first, piece]);
    }
}

} // verus!
