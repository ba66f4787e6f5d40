//! The engine's guarantees, stated and proved over the plan model.
//!
//! Each public proof function here is a law of the planner: what the copy
//! steps may contain (only non-excluded source files), what they must
//! contain (every changed or missing file), when nothing is copied
//! (up-to-date targets, the skip-checksum short circuit, an empty
//! source), what the deletion pass removes (exactly the orphaned target
//! entries), which file most-recent-only mode picks, and that a faithful
//! execution of a plan leaves nothing for a second run to copy.

use vstd::prelude::*;

use crate::checksum::crc32_of;
use crate::engine::FsEntry;
use crate::engine::StepModel;
use crate::engine::TaskConfig;
use crate::engine::copy_plan;
use crate::engine::copy_step_of;
use crate::engine::copy_steps;
use crate::engine::delete_step_of;
use crate::engine::delete_steps;
use crate::engine::find_spec;
use crate::engine::considered_child;
use crate::engine::last_max_file;
use crate::engine::plan_spec;
use crate::engine::source_path_of;
use crate::engine::target_path_of;
use crate::paths::excluded;
use crate::paths::lemma_join_strip;
use crate::paths::lemma_strip_join;
use crate::paths::rel_of;
use crate::paths::strip_ok;

verus! {

/// Whether a step copies a file.
pub open spec fn step_is_copy(st: StepModel) -> bool {
    st is CopyNew || st is CopyChanged
}

/// The source path a copy step reads from; empty for other steps.
pub open spec fn copy_src(st: StepModel) -> Seq<u8> {
    match st {
        StepModel::CopyNew { src, .. } => src,
        StepModel::CopyChanged { src, .. } => src,
        _ => Seq::empty(),
    }
}

/// The target path a copy step writes to; empty for other steps.
pub open spec fn copy_tgt(st: StepModel) -> Seq<u8> {
    match st {
        StepModel::CopyNew { tgt, .. } => tgt,
        StepModel::CopyChanged { tgt, .. } => tgt,
        _ => Seq::empty(),
    }
}

/// The path a delete step removes; empty for other steps.
pub open spec fn deleted_path(st: StepModel) -> Seq<u8> {
    match st {
        StepModel::Delete { path, .. } => path,
        _ => Seq::empty(),
    }
}

/// The source entries the copy phase considers: all of them, or, in
/// most-recent-only mode, the single most recently modified regular
/// file directly under the source root (none when there is no such
/// file).
pub open spec fn selected_entries(task: TaskConfig, src: Seq<FsEntry>) -> Seq<FsEntry> {
    if task.most_recent_only {
        match last_max_file(task.source@, src) {
            Some(i) => seq![src[i]],
            None => Seq::empty(),
        }
    } else {
        src
    }
}

/// `find_spec` misses exactly when no entry carries the path.
pub proof fn lemma_find_spec_none_iff(entries: Seq<FsEntry>, p: Seq<u8>)
    ensures
        (find_spec(entries, p) is None) <==> (forall|i: int|
            0 <= i < entries.len() ==> (#[trigger] entries[i]).path@ != p),
    decreases entries.len(),
{
    if entries.len() > 0 {
        let tail = entries.drop_first();
        lemma_find_spec_none_iff(tail, p);
        if find_spec(entries, p) is None {
            assert forall|i: int|
                0 <= i < entries.len() implies (#[trigger] entries[i]).path@ != p by {
                if i > 0 {
                    assert(tail[i - 1] == entries[i]);
                }
            }
        } else {
            if entries[0].path@ != p {
                assert(exists|ti: int|
                    0 <= ti < tail.len() && (#[trigger] tail[ti]).path@ == p);
                let ti = choose|ti: int|
                    0 <= ti < tail.len() && (#[trigger] tail[ti]).path@ == p;
                assert(entries[ti + 1] == tail[ti]);
            }
        }
    }
}

/// Every copy-phase step stems from some considered source entry.
pub proof fn lemma_copy_steps_sound(task: TaskConfig, sel: Seq<FsEntry>, tgt: Seq<FsEntry>, k: int)
    requires
        0 <= k < copy_steps(task, sel, tgt).len(),
    ensures
        exists|i: int|
            0 <= i < sel.len() && #[trigger] copy_step_of(task, sel[i], tgt) == Some(
                copy_steps(task, sel, tgt)[k],
            ),
    decreases sel.len(),
{
    let steps = copy_steps(task, sel, tgt);
    let rest = copy_steps(task, sel.drop_last(), tgt);
    match copy_step_of(task, sel.last(), tgt) {
        Some(st) => {
            if k < rest.len() {
                lemma_copy_steps_sound(task, sel.drop_last(), tgt, k);
                let i = choose|i: int|
                    0 <= i < sel.drop_last().len() && #[trigger] copy_step_of(
                        task,
                        sel.drop_last()[i],
                        tgt,
                    ) == Some(rest[k]);
                assert(sel[i] == sel.drop_last()[i]);
                assert(copy_step_of(task, sel[i], tgt) == Some(steps[k]));
            } else {
                assert(steps[k] == st);
                assert(copy_step_of(task, sel[sel.len() - 1], tgt) == Some(steps[k]));
            }
        },
        None => {
            lemma_copy_steps_sound(task, sel.drop_last(), tgt, k);
            let i = choose|i: int|
                0 <= i < sel.drop_last().len() && #[trigger] copy_step_of(
                    task,
                    sel.drop_last()[i],
                    tgt,
                ) == Some(rest[k]);
            assert(sel[i] == sel.drop_last()[i]);
            assert(copy_step_of(task, sel[i], tgt) == Some(steps[k]));
        },
    }
}

/// The step an entry gives rise to appears among the copy steps.
pub proof fn lemma_copy_steps_complete(
    task: TaskConfig,
    sel: Seq<FsEntry>,
    tgt: Seq<FsEntry>,
    i: int,
    st: StepModel,
)
    requires
        0 <= i < sel.len(),
        copy_step_of(task, sel[i], tgt) == Some(st),
    ensures
        copy_steps(task, sel, tgt).contains(st),
    decreases sel.len(),
{
    let steps = copy_steps(task, sel, tgt);
    let rest = copy_steps(task, sel.drop_last(), tgt);
    if i == sel.len() - 1 {
        assert(steps[steps.len() - 1] == st);
    } else {
        assert(sel.drop_last()[i] == sel[i]);
        lemma_copy_steps_complete(task, sel.drop_last(), tgt, i, st);
        let k = choose|k: int| 0 <= k < rest.len() && rest[k] == st;
        assert(steps[k] == st);
    }
}

/// Exclusion: a path containing a configured exclude substring is never
/// the source of any copy step.
pub proof fn lemma_exclusion(task: TaskConfig, sel: Seq<FsEntry>, tgt: Seq<FsEntry>, k: int)
    requires
        0 <= k < copy_steps(task, sel, tgt).len(),
        step_is_copy(copy_steps(task, sel, tgt)[k]),
    ensures
        !excluded(copy_src(copy_steps(task, sel, tgt)[k]), task.exclude@),
{
    lemma_copy_steps_sound(task, sel, tgt, k);
    let i = choose|i: int|
        0 <= i < sel.len() && #[trigger] copy_step_of(task, sel[i], tgt) == Some(
            copy_steps(task, sel, tgt)[k],
        );
}

/// The mapping invariant: every copy step writes to exactly the source
/// path relocated under the target root, so the deletion pass's inverse
/// mapping recovers the source path.
pub proof fn lemma_mapping_invariant(task: TaskConfig, sel: Seq<FsEntry>, tgt: Seq<FsEntry>, k: int)
    requires
        0 <= k < copy_steps(task, sel, tgt).len(),
        step_is_copy(copy_steps(task, sel, tgt)[k]),
    ensures
        copy_tgt(copy_steps(task, sel, tgt)[k]) == target_path_of(
            task,
            copy_src(copy_steps(task, sel, tgt)[k]),
        ),
{
    lemma_copy_steps_sound(task, sel, tgt, k);
    let i = choose|i: int|
        0 <= i < sel.len() && #[trigger] copy_step_of(task, sel[i], tgt) == Some(
            copy_steps(task, sel, tgt)[k],
        );
}

/// Exclusion is reported: every excluded source entry gives rise to a
/// skip report naming its path.
pub proof fn lemma_excluded_reported(task: TaskConfig, sel: Seq<FsEntry>, tgt: Seq<FsEntry>, i: int)
    requires
        0 <= i < sel.len(),
        excluded(sel[i].path@, task.exclude@),
    ensures
        copy_steps(task, sel, tgt).contains(StepModel::SkipExcluded { path: sel[i].path@ }),
{
    lemma_copy_steps_complete(
        task,
        sel,
        tgt,
        i,
        StepModel::SkipExcluded { path: sel[i].path@ },
    );
}

/// Mapping correctness: a considered source file that no pattern
/// excludes is either copied to its mapped target path, or that path
/// already holds a file with the same content checksum (or an entry that
/// is not a regular file, which checksum comparison must skip).
pub proof fn lemma_mapping(task: TaskConfig, sel: Seq<FsEntry>, tgt: Seq<FsEntry>, i: int)
    requires
        !task.skip_crc,
        0 <= i < sel.len(),
        sel[i].is_file,
        !excluded(sel[i].path@, task.exclude@),
    ensures
        ({
            let e = sel[i];
            let tp = target_path_of(task, e.path@);
            ||| copy_steps(task, sel, tgt).contains(StepModel::CopyNew { src: e.path@, tgt: tp })
            ||| copy_steps(task, sel, tgt).contains(
                StepModel::CopyChanged { src: e.path@, tgt: tp },
            )
            ||| (find_spec(tgt, tp) matches Some(t) && t.is_file && crc32_of(t.content@)
                == crc32_of(e.content@))
            ||| (find_spec(tgt, tp) matches Some(t) && !t.is_file)
        }),
{
    let e = sel[i];
    match copy_step_of(task, e, tgt) {
        Some(st) => {
            lemma_copy_steps_complete(task, sel, tgt, i, st);
        },
        None => {},
    }
}

/// Change detection: when the mapped target path holds a file and the
/// checksums are compared, the entry is re-copied exactly when they
/// differ.
pub proof fn lemma_change_detection(task: TaskConfig, e: FsEntry, tgt: Seq<FsEntry>, t: FsEntry)
    requires
        !task.skip_crc,
        e.is_file,
        !excluded(e.path@, task.exclude@),
        find_spec(tgt, target_path_of(task, e.path@)) == Some(t),
        t.is_file,
    ensures
        copy_step_of(task, e, tgt) == (if crc32_of(t.content@) != crc32_of(e.content@) {
            Some(
                StepModel::CopyChanged {
                    src: e.path@,
                    tgt: target_path_of(task, e.path@),
                },
            )
        } else {
            None
        }),
{
}

/// The skip-checksum short circuit: when `skip_crc` is set, the bare
/// existence of any entry at the mapped target path suppresses the copy,
/// whatever the contents are.
pub proof fn lemma_skip_crc(task: TaskConfig, e: FsEntry, tgt: Seq<FsEntry>)
    requires
        task.skip_crc,
        find_spec(tgt, target_path_of(task, e.path@)) is Some,
    ensures
        match copy_step_of(task, e, tgt) {
            Some(st) => !step_is_copy(st),
            None => true,
        },
{
}

/// Every deletion-pass step stems from some target entry.
pub proof fn lemma_delete_steps_sound(
    task: TaskConfig,
    tgt: Seq<FsEntry>,
    src: Seq<FsEntry>,
    k: int,
)
    requires
        0 <= k < delete_steps(task, tgt, src).len(),
    ensures
        exists|j: int|
            0 <= j < tgt.len() && #[trigger] delete_step_of(task, tgt[j], src) == Some(
                delete_steps(task, tgt, src)[k],
            ),
    decreases tgt.len(),
{
    let steps = delete_steps(task, tgt, src);
    let rest = delete_steps(task, tgt.drop_last(), src);
    match delete_step_of(task, tgt.last(), src) {
        Some(st) => {
            if k < rest.len() {
                lemma_delete_steps_sound(task, tgt.drop_last(), src, k);
                let j = choose|j: int|
                    0 <= j < tgt.drop_last().len() && #[trigger] delete_step_of(
                        task,
                        tgt.drop_last()[j],
                        src,
                    ) == Some(rest[k]);
                assert(tgt[j] == tgt.drop_last()[j]);
                assert(delete_step_of(task, tgt[j], src) == Some(steps[k]));
            } else {
                assert(steps[k] == st);
                assert(delete_step_of(task, tgt[tgt.len() - 1], src) == Some(steps[k]));
            }
        },
        None => {
            lemma_delete_steps_sound(task, tgt.drop_last(), src, k);
            let j = choose|j: int|
                0 <= j < tgt.drop_last().len() && #[trigger] delete_step_of(
                    task,
                    tgt.drop_last()[j],
                    src,
                ) == Some(rest[k]);
            assert(tgt[j] == tgt.drop_last()[j]);
            assert(delete_step_of(task, tgt[j], src) == Some(steps[k]));
        },
    }
}

/// The step a target entry gives rise to appears among the delete steps.
pub proof fn lemma_delete_steps_complete(
    task: TaskConfig,
    tgt: Seq<FsEntry>,
    src: Seq<FsEntry>,
    j: int,
    st: StepModel,
)
    requires
        0 <= j < tgt.len(),
        delete_step_of(task, tgt[j], src) == Some(st),
    ensures
        delete_steps(task, tgt, src).contains(st),
    decreases tgt.len(),
{
    let steps = delete_steps(task, tgt, src);
    let rest = delete_steps(task, tgt.drop_last(), src);
    if j == tgt.len() - 1 {
        assert(steps[steps.len() - 1] == st);
    } else {
        assert(tgt.drop_last()[j] == tgt[j]);
        lemma_delete_steps_complete(task, tgt.drop_last(), src, j, st);
        let k = choose|k: int| 0 <= k < rest.len() && rest[k] == st;
        assert(steps[k] == st);
    }
}

/// Deletion reconciliation: a target entry is deleted exactly when no
/// source entry stands at its inverse-mapped path.
pub proof fn lemma_deletion(task: TaskConfig, tgt: Seq<FsEntry>, src: Seq<FsEntry>, j: int)
    requires
        0 <= j < tgt.len(),
    ensures
        (find_spec(src, source_path_of(task, tgt[j].path@)) is None) <==> delete_steps(
            task,
            tgt,
            src,
        ).contains(StepModel::Delete { path: tgt[j].path@, is_file: tgt[j].is_file }),
{
    let e = tgt[j];
    let st = StepModel::Delete { path: e.path@, is_file: e.is_file };
    if find_spec(src, source_path_of(task, e.path@)) is None {
        lemma_delete_steps_complete(task, tgt, src, j, st);
    }
    if delete_steps(task, tgt, src).contains(st) {
        let k = choose|k: int|
            0 <= k < delete_steps(task, tgt, src).len() && delete_steps(task, tgt, src)[k] == st;
        lemma_delete_steps_sound(task, tgt, src, k);
        let j2 = choose|j2: int|
            0 <= j2 < tgt.len() && #[trigger] delete_step_of(task, tgt[j2], src) == Some(
                delete_steps(task, tgt, src)[k],
            );
        assert(tgt[j2].path@ == e.path@);
    }
}

/// Survivors are untouched: no deletion-pass step names the path of a
/// target entry whose inverse-mapped source path exists.
pub proof fn lemma_survivors_untouched(
    task: TaskConfig,
    tgt: Seq<FsEntry>,
    src: Seq<FsEntry>,
    j: int,
    k: int,
)
    requires
        0 <= j < tgt.len(),
        find_spec(src, source_path_of(task, tgt[j].path@)) is Some,
        0 <= k < delete_steps(task, tgt, src).len(),
    ensures
        delete_steps(task, tgt, src)[k] is Delete,
        deleted_path(delete_steps(task, tgt, src)[k]) != tgt[j].path@,
{
    lemma_delete_steps_sound(task, tgt, src, k);
    let j2 = choose|j2: int|
        0 <= j2 < tgt.len() && #[trigger] delete_step_of(task, tgt[j2], src) == Some(
            delete_steps(task, tgt, src)[k],
        );
    if tgt[j2].path@ == tgt[j].path@ {
        assert(false);
    }
}

/// The mapped target path of a considered source entry is never deleted:
/// the deletion pass cannot undo what the copy phase just put in place.
pub proof fn lemma_copy_targets_not_deleted(
    task: TaskConfig,
    src: Seq<FsEntry>,
    tgt: Seq<FsEntry>,
    i: int,
    k: int,
)
    requires
        0 <= i < src.len(),
        strip_ok(src[i].path@, task.source@),
        0 <= k < delete_steps(task, tgt, src).len(),
    ensures
        deleted_path(delete_steps(task, tgt, src)[k]) != target_path_of(task, src[i].path@),
{
    let rel = rel_of(src[i].path@, task.source@);
    let tp = target_path_of(task, src[i].path@);
    lemma_delete_steps_sound(task, tgt, src, k);
    let j = choose|j: int|
        0 <= j < tgt.len() && #[trigger] delete_step_of(task, tgt[j], src) == Some(
            delete_steps(task, tgt, src)[k],
        );
    if tgt[j].path@ == tp {
        lemma_join_strip(task.target@, rel);
        assert(rel_of(tp, task.target@) == rel);
        lemma_strip_join(src[i].path@, task.source@);
        assert(source_path_of(task, tp) == src[i].path@);
        lemma_find_spec_none_iff(src, src[i].path@);
        assert(false);
    }
}

/// The most recently modified direct-child file: `last_max_file` points
/// at a considered entry no other considered entry beats, and later
/// considered entries are strictly older (ties resolve to the last
/// index).
pub proof fn lemma_last_max(root: Seq<u8>, entries: Seq<FsEntry>, i: int)
    requires
        last_max_file(root, entries) == Some(i),
    ensures
        0 <= i < entries.len(),
        considered_child(root, entries[i]),
        forall|j: int|
            0 <= j < entries.len() && considered_child(root, #[trigger] entries[j])
                ==> entries[j].mtime <= entries[i].mtime,
        forall|j: int|
            i < j < entries.len() && considered_child(root, #[trigger] entries[j])
                ==> entries[j].mtime < entries[i].mtime,
    decreases entries.len(),
{
    let head = entries.drop_last();
    match last_max_file(root, head) {
        Some(b) => {
            lemma_last_max(root, head, b);
            assert(head[b] == entries[b]);
        },
        None => {
            lemma_last_max_none(root, head);
        },
    }
    assert(entries.last() == entries[entries.len() - 1]);
    assert forall|j: int|
        0 <= j < entries.len() && considered_child(root, #[trigger] entries[j])
        implies entries[j].mtime <= entries[i].mtime by {
        if j < entries.len() - 1 {
            assert(head[j] == entries[j]);
        }
    }
    assert forall|j: int|
        i < j < entries.len() && considered_child(root, #[trigger] entries[j])
        implies entries[j].mtime < entries[i].mtime by {
        if j < entries.len() - 1 {
            assert(head[j] == entries[j]);
        }
    }
}

/// When `last_max_file` finds nothing, no entry is a regular file
/// directly under the root.
pub proof fn lemma_last_max_none(root: Seq<u8>, entries: Seq<FsEntry>)
    requires
        last_max_file(root, entries) is None,
    ensures
        forall|j: int|
            0 <= j < entries.len() ==> !considered_child(root, #[trigger] entries[j]),
    decreases entries.len(),
{
    if entries.len() > 0 {
        let head = entries.drop_last();
        lemma_last_max_none(root, head);
        assert(entries.last() == entries[entries.len() - 1]);
        assert forall|j: int|
            0 <= j < entries.len() implies !considered_child(root, #[trigger] entries[j]) by {
            if j < entries.len() - 1 {
                assert(head[j] == entries[j]);
            }
        }
    }
}

/// Most-recent-only selection: every step of such a copy phase concerns
/// the single most recently modified regular file directly under the
/// source root, and no such file is newer than the one considered.
pub proof fn lemma_most_recent(
    task: TaskConfig,
    src: Seq<FsEntry>,
    tgt: Seq<FsEntry>,
    i: int,
    k: int,
)
    requires
        task.most_recent_only,
        last_max_file(task.source@, src) == Some(i),
        0 <= k < copy_plan(task, src, tgt).len(),
    ensures
        Some(copy_plan(task, src, tgt)[k]) == copy_step_of(task, src[i], tgt),
        forall|j: int|
            0 <= j < src.len() && considered_child(task.source@, #[trigger] src[j])
                ==> src[j].mtime <= src[i].mtime,
{
    lemma_last_max(task.source@, src, i);
    let single = seq![src[i]];
    assert(single.drop_last() =~= Seq::<FsEntry>::empty());
    assert(copy_steps(task, Seq::<FsEntry>::empty(), tgt) == Seq::<StepModel>::empty());
    assert(single.last() == src[i]);
}

/// Without `remove_deleted`, a plan holds no delete step: the target
/// tree loses nothing, whatever the source holds.
pub proof fn lemma_no_deletions_unless_enabled(
    task: TaskConfig,
    src: Seq<FsEntry>,
    tgt: Seq<FsEntry>,
    k: int,
)
    requires
        !task.remove_deleted,
        0 <= k < plan_spec(task, src, tgt).len(),
    ensures
        !(plan_spec(task, src, tgt)[k] is Delete),
{
    assert(plan_spec(task, src, tgt)[k] == copy_plan(task, src, tgt)[k]);
    if task.most_recent_only {
        match last_max_file(task.source@, src) {
            Some(i) => {
                lemma_copy_steps_sound(task, seq![src[i]], tgt, k);
                let j = choose|j: int|
                    0 <= j < seq![src[i]].len() && #[trigger] copy_step_of(
                        task,
                        seq![src[i]][j],
                        tgt,
                    ) == Some(copy_steps(task, seq![src[i]], tgt)[k]);
            },
            None => {},
        }
    } else {
        lemma_copy_steps_sound(task, src, tgt, k);
        let j = choose|j: int|
            0 <= j < src.len() && #[trigger] copy_step_of(task, src[j], tgt) == Some(
                copy_steps(task, src, tgt)[k],
            );
    }
}

/// Empty source: with no source entries at all, the copy phase performs
/// zero copies; in most-recent-only mode it reports exactly that no
/// files were found.
pub proof fn lemma_empty_source(task: TaskConfig, tgt: Seq<FsEntry>)
    ensures
        copy_plan(task, Seq::<FsEntry>::empty(), tgt) == (if task.most_recent_only {
            seq![StepModel::NoFiles { source: task.source@ }]
        } else {
            Seq::<StepModel>::empty()
        }),
{
    assert(copy_steps(task, Seq::<FsEntry>::empty(), tgt) == Seq::<StepModel>::empty());
}

/// The target path of `e`'s entry survives a faithful execution: if an
/// entry stood at `p` before the run, an entry with the same kind and
/// content stands there after it.
pub open spec fn entry_preserved(tgt: Seq<FsEntry>, tgt2: Seq<FsEntry>, p: Seq<u8>) -> bool {
    match find_spec(tgt, p) {
        Some(t) => match find_spec(tgt2, p) {
            Some(t2) => t2.is_file == t.is_file && t2.content@ == t.content@,
            None => false,
        },
        None => true,
    }
}

/// What a faithful execution of the plan leaves at the mapped target
/// path of one considered entry: the source content where a copy step
/// ran, the untouched old entry where none did.
pub open spec fn entry_post_ok(
    task: TaskConfig,
    e: FsEntry,
    tgt: Seq<FsEntry>,
    tgt2: Seq<FsEntry>,
) -> bool {
    let tp = target_path_of(task, e.path@);
    match copy_step_of(task, e, tgt) {
        Some(st) => if step_is_copy(st) {
            match find_spec(tgt2, tp) {
                Some(t2) => t2.is_file && t2.content@ == e.content@,
                None => false,
            }
        } else {
            entry_preserved(tgt, tgt2, tp)
        },
        None => entry_preserved(tgt, tgt2, tp),
    }
}

/// `tgt2` is a walk of the target tree after a faithful execution of the
/// plan for (`src`, `tgt`): at the mapped path of every considered
/// source entry, a copied file now holds the source's content, and a
/// skipped one's old entry is unchanged.
pub open spec fn run_preserves(
    task: TaskConfig,
    src: Seq<FsEntry>,
    tgt: Seq<FsEntry>,
    tgt2: Seq<FsEntry>,
) -> bool {
    forall|i: int|
        0 <= i < selected_entries(task, src).len() ==> entry_post_ok(
            task,
            #[trigger] selected_entries(task, src)[i],
            tgt,
            tgt2,
        )
}

proof fn lemma_entry_idempotent(task: TaskConfig, e: FsEntry, tgt: Seq<FsEntry>, tgt2: Seq<FsEntry>)
    requires
        entry_post_ok(task, e, tgt, tgt2),
    ensures
        match copy_step_of(task, e, tgt2) {
            Some(st) => !step_is_copy(st),
            None => true,
        },
{
    let tp = target_path_of(task, e.path@);
    if !excluded(e.path@, task.exclude@) && e.is_file {
        match copy_step_of(task, e, tgt) {
            Some(st) => {},
            None => {
                match find_spec(tgt, tp) {
                    Some(t) => {},
                    None => {
                        assert(copy_step_of(task, e, tgt) == Some(
                            StepModel::CopyNew { src: e.path@, tgt: tp },
                        ));
                    },
                }
            },
        }
    }
}

proof fn lemma_copy_steps_no_copies(task: TaskConfig, sel: Seq<FsEntry>, tgt2: Seq<FsEntry>)
    requires
        forall|i: int|
            0 <= i < sel.len() ==> match copy_step_of(task, #[trigger] sel[i], tgt2) {
                Some(st) => !step_is_copy(st),
                None => true,
            },
    ensures
        forall|k: int|
            0 <= k < copy_steps(task, sel, tgt2).len() ==> !step_is_copy(
                #[trigger] copy_steps(task, sel, tgt2)[k],
            ),
    decreases sel.len(),
{
    if sel.len() > 0 {
        let head = sel.drop_last();
        assert(forall|i: int| 0 <= i < head.len() ==> #[trigger] head[i] == sel[i]);
        lemma_copy_steps_no_copies(task, head, tgt2);
        assert(sel.last() == sel[sel.len() - 1]);
        let steps = copy_steps(task, sel, tgt2);
        let rest = copy_steps(task, head, tgt2);
        assert forall|k: int| 0 <= k < steps.len() implies !step_is_copy(
            #[trigger] steps[k],
        ) by {
            if k < rest.len() {
                assert(steps[k] == rest[k]);
            }
        }
    }
}

/// Mapping correctness after a run: once a faithful execution of the
/// plan is done, the mapped target path of every considered,
/// non-excluded source file (whose mapped path held no directory) holds
/// a regular file whose content checksum equals the source's.
pub proof fn lemma_mapping_after_run(
    task: TaskConfig,
    src: Seq<FsEntry>,
    tgt: Seq<FsEntry>,
    tgt2: Seq<FsEntry>,
    i: int,
)
    requires
        run_preserves(task, src, tgt, tgt2),
        !task.skip_crc,
        0 <= i < selected_entries(task, src).len(),
        selected_entries(task, src)[i].is_file,
        !excluded(selected_entries(task, src)[i].path@, task.exclude@),
        (match find_spec(tgt, target_path_of(task, selected_entries(task, src)[i].path@)) {
            Some(t) => t.is_file,
            None => true,
        }),
    ensures
        ({
            let e = selected_entries(task, src)[i];
            let tp = target_path_of(task, e.path@);
            find_spec(tgt2, tp) matches Some(t2) && t2.is_file && crc32_of(t2.content@)
                == crc32_of(e.content@)
        }),
{
    let e = selected_entries(task, src)[i];
    let tp = target_path_of(task, e.path@);
    assert(entry_post_ok(task, e, tgt, tgt2));
    match copy_step_of(task, e, tgt) {
        Some(st) => {},
        None => {
            match find_spec(tgt, tp) {
                Some(t) => {},
                None => {
                    assert(copy_step_of(task, e, tgt) == Some(
                        StepModel::CopyNew { src: e.path@, tgt: tp },
                    ));
                },
            }
        },
    }
}

/// Idempotence: running the same task again, against the unchanged
/// source and the target a faithful execution of the first plan left
/// behind, copies nothing. The second copy phase holds at most skip
/// reports, or the no-files report of most-recent-only mode.
pub proof fn lemma_idempotence(
    task: TaskConfig,
    src: Seq<FsEntry>,
    tgt: Seq<FsEntry>,
    tgt2: Seq<FsEntry>,
)
    requires
        run_preserves(task, src, tgt, tgt2),
    ensures
        forall|k: int|
            0 <= k < copy_steps(task, selected_entries(task, src), tgt2).len() ==> !step_is_copy(
                #[trigger] copy_steps(task, selected_entries(task, src), tgt2)[k],
            ),
        forall|k: int|
            0 <= k < copy_plan(task, src, tgt2).len() ==> !step_is_copy(
                #[trigger] copy_plan(task, src, tgt2)[k],
            ),
{
    let sel = selected_entries(task, src);
    assert forall|i: int| 0 <= i < sel.len() implies match copy_step_of(
        task,
        #[trigger] sel[i],
        tgt2,
    ) {
        Some(st) => !step_is_copy(st),
        None => true,
    } by {
        lemma_entry_idempotent(task, sel[i], tgt, tgt2);
    }
    lemma_copy_steps_no_copies(task, sel, tgt2);
}

} // verus!
