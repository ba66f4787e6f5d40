//! The synchronization engine: a pure planner over filesystem snapshots.
//!
//! A snapshot is a vector of entries, one per filesystem object reachable
//! under a root, each carrying its rooted path, whether it is a regular
//! file, its modification time, and (for files) its content bytes. Given
//! a task and snapshots of its source and target trees, `plan_task`
//! computes the exact sequence of steps the task performs: which files
//! are copied (and whether the target parent directories must be created
//! first), which target entries are deleted, and whether the task reports
//! that no files were found. An unverified shell gathers the snapshots
//! and performs the steps; the decision logic lives entirely here.

use vstd::prelude::*;

use crate::checksum::checksums_match;
use crate::checksum::crc32_of;
use crate::paths::copy_bytes;
use crate::paths::excluded;
use crate::paths::direct_child_check;
use crate::paths::is_direct_child;
use crate::paths::is_excluded;
use crate::paths::join_path;
use crate::paths::join_spec;
use crate::paths::rel_of;
use crate::paths::strip_ok;
use crate::paths::strip_prefix;

verus! {

/// One synchronization directive: mirror `source` into `target`, skipping
/// paths that contain any of `exclude` as a substring. Paths are byte
/// strings with `/` as separator, with no trailing separator on the roots.
#[derive(Clone, Debug)]
pub struct TaskConfig {
    /// Root directory read from.
    pub source: Vec<u8>,
    /// Root directory written to.
    pub target: Vec<u8>,
    /// Substring patterns; a source path containing any of them is skipped.
    pub exclude: Vec<Vec<u8>>,
    /// After the copy phase, delete target entries with no source counterpart.
    pub remove_deleted: bool,
    /// Copy only the most recently modified direct child file of `source`.
    pub most_recent_only: bool,
    /// Treat any existing target file as up to date, without comparing content.
    pub skip_crc: bool,
}

/// An ordered list of tasks, processed first to last.
#[derive(Clone, Debug)]
pub struct Config {
    /// The tasks, in the order they are to run.
    pub task: Vec<TaskConfig>,
}

/// One filesystem object found by walking a root.
#[derive(Clone, Debug)]
pub struct FsEntry {
    /// The rooted path of the object: the walked root itself, or the root
    /// followed by the separator and the path relative to it.
    pub path: Vec<u8>,
    /// Whether the object is a regular file.
    pub is_file: bool,
    /// Modification time, as seconds since some fixed epoch.
    pub mtime: u64,
    /// The file's content; empty and meaningless unless `is_file`.
    pub content: Vec<u8>,
}

/// The snapshots one task works on: the entries under its source root and
/// the entries under its target root, as a tree walk produced them.
#[derive(Clone, Debug)]
pub struct TaskSnapshot {
    /// Walk of the task's source tree.
    pub source_entries: Vec<FsEntry>,
    /// Walk of the task's target tree.
    pub target_entries: Vec<FsEntry>,
}

/// One step of a task's plan, to be performed in order.
#[derive(Clone, Debug, PartialEq, Eq)]
pub enum Step {
    /// Copy `src` to `tgt`; no entry exists at `tgt` yet, so the parent
    /// directories of `tgt` must be created first.
    CopyNew {
        /// Path of the source file.
        src: Vec<u8>,
        /// Mapped path under the target root.
        tgt: Vec<u8>,
    },
    /// Copy `src` over the existing file at `tgt`, whose content checksum
    /// differs from the source's.
    CopyChanged {
        /// Path of the source file.
        src: Vec<u8>,
        /// Mapped path under the target root.
        tgt: Vec<u8>,
    },
    /// Delete the target entry at `path`: a single file if `is_file`,
    /// otherwise recursively as a directory.
    Delete {
        /// Path of the doomed target entry.
        path: Vec<u8>,
        /// Whether the entry is a regular file.
        is_file: bool,
    },
    /// Report that `src` was skipped because the entry at its mapped
    /// target path is not a regular file whose content the snapshot
    /// carries (a directory, or a file that could not be read): no
    /// checksum comparison is possible, so nothing is overwritten.
    SkipUnreadable {
        /// Path of the source file that was not copied.
        src: Vec<u8>,
        /// Mapped path under the target root that cannot be checksummed.
        tgt: Vec<u8>,
    },
    /// Report that the entry at `path` was skipped because an exclude
    /// pattern matches the path.
    SkipExcluded {
        /// The excluded source path.
        path: Vec<u8>,
    },
    /// Report that the source directory holds no file to copy; emitted
    /// only in most-recent-only mode.
    NoFiles {
        /// The source root that held no files.
        source: Vec<u8>,
    },
}

/// The mathematical shape of a step, over byte sequences.
pub enum StepModel {
    /// Model of `Step::CopyNew`.
    CopyNew { src: Seq<u8>, tgt: Seq<u8> },
    /// Model of `Step::CopyChanged`.
    CopyChanged { src: Seq<u8>, tgt: Seq<u8> },
    /// Model of `Step::Delete`.
    Delete { path: Seq<u8>, is_file: bool },
    /// Model of `Step::SkipUnreadable`.
    SkipUnreadable { src: Seq<u8>, tgt: Seq<u8> },
    /// Model of `Step::SkipExcluded`.
    SkipExcluded { path: Seq<u8> },
    /// Model of `Step::NoFiles`.
    NoFiles { source: Seq<u8> },
}

impl View for Step {
    type V = StepModel;

    open spec fn view(&self) -> StepModel {
        match self {
            Step::CopyNew { src, tgt } => StepModel::CopyNew { src: src@, tgt: tgt@ },
            Step::CopyChanged { src, tgt } => StepModel::CopyChanged { src: src@, tgt: tgt@ },
            Step::Delete { path, is_file } => StepModel::Delete { path: path@, is_file: *is_file },
            Step::SkipUnreadable { src, tgt } => (StepModel::SkipUnreadable {
                src: src@,
                tgt: tgt@,
            }),
            Step::SkipExcluded { path } => StepModel::SkipExcluded { path: path@ },
            Step::NoFiles { source } => StepModel::NoFiles { source: source@ },
        }
    }
}

/// The models of a sequence of steps, in order.
pub open spec fn steps_view(s: Seq<Step>) -> Seq<StepModel>
    decreases s.len(),
{
    if s.len() == 0 {
        Seq::empty()
    } else {
        steps_view(s.drop_last()).push(s.last()@)
    }
}

/// Every entry's path lies under `root` in the sense of `strip_ok`: the
/// invariant a tree walk guarantees of what it yields.
pub open spec fn rooted_under(entries: Seq<FsEntry>, root: Seq<u8>) -> bool {
    forall|i: int| 0 <= i < entries.len() ==> strip_ok(#[trigger] entries[i].path@, root)
}

/// The first entry whose path equals `p`, if any.
pub open spec fn find_spec(entries: Seq<FsEntry>, p: Seq<u8>) -> Option<FsEntry>
    decreases entries.len(),
{
    if entries.len() == 0 {
        None
    } else if entries[0].path@ == p {
        Some(entries[0])
    } else {
        find_spec(entries.drop_first(), p)
    }
}

/// Where a source path is mirrored to: the target root joined with the
/// path's remainder after the source root.
pub open spec fn target_path_of(task: TaskConfig, source_path: Seq<u8>) -> Seq<u8> {
    join_spec(task.target@, rel_of(source_path, task.source@))
}

/// The inverse mapping used by the deletion pass: the source root joined
/// with a target path's remainder after the target root.
pub open spec fn source_path_of(task: TaskConfig, target_path: Seq<u8>) -> Seq<u8> {
    join_spec(task.source@, rel_of(target_path, task.target@))
}

/// What the copy phase does with one source entry: a reported skip if
/// the entry is excluded; nothing if it is not a regular file; a fresh
/// copy if no target entry exists at the mapped path; nothing if one
/// exists and `skip_crc` is set, or it is a file whose content checksum
/// equals the source's; a re-copy if the checksums differ. An existing
/// non-file entry at the mapped path cannot be checksummed: the skip is
/// reported and nothing is overwritten.
pub open spec fn copy_step_of(task: TaskConfig, e: FsEntry, tgt: Seq<FsEntry>) -> Option<
    StepModel,
> {
    let tp = target_path_of(task, e.path@);
    if excluded(e.path@, task.exclude@) {
        Some(StepModel::SkipExcluded { path: e.path@ })
    } else if !e.is_file {
        None
    } else {
        match find_spec(tgt, tp) {
            None => Some(StepModel::CopyNew { src: e.path@, tgt: tp }),
            Some(t) => if task.skip_crc {
                None
            } else if !t.is_file {
                Some(StepModel::SkipUnreadable { src: e.path@, tgt: tp })
            } else if crc32_of(t.content@) == crc32_of(e.content@) {
                None
            } else {
                Some(StepModel::CopyChanged { src: e.path@, tgt: tp })
            },
        }
    }
}

/// What the deletion pass does with one target entry: delete it exactly
/// when no source entry exists at the inverse-mapped path.
pub open spec fn delete_step_of(task: TaskConfig, e: FsEntry, src: Seq<FsEntry>) -> Option<
    StepModel,
> {
    match find_spec(src, source_path_of(task, e.path@)) {
        Some(_) => None,
        None => Some(StepModel::Delete { path: e.path@, is_file: e.is_file }),
    }
}

/// The copy steps for a selection of source entries, in entry order.
pub open spec fn copy_steps(task: TaskConfig, sel: Seq<FsEntry>, tgt: Seq<FsEntry>) -> Seq<
    StepModel,
>
    decreases sel.len(),
{
    if sel.len() == 0 {
        Seq::empty()
    } else {
        let rest = copy_steps(task, sel.drop_last(), tgt);
        match copy_step_of(task, sel.last(), tgt) {
            Some(st) => rest.push(st),
            None => rest,
        }
    }
}

/// The delete steps for the target entries, in entry order.
pub open spec fn delete_steps(task: TaskConfig, tgt: Seq<FsEntry>, src: Seq<FsEntry>) -> Seq<
    StepModel,
>
    decreases tgt.len(),
{
    if tgt.len() == 0 {
        Seq::empty()
    } else {
        let rest = delete_steps(task, tgt.drop_last(), src);
        match delete_step_of(task, tgt.last(), src) {
            Some(st) => rest.push(st),
            None => rest,
        }
    }
}

/// Whether the copy phase of most-recent-only mode considers an entry:
/// a regular file that is a direct child of the source root.
pub open spec fn considered_child(root: Seq<u8>, e: FsEntry) -> bool {
    e.is_file && is_direct_child(e.path@, root)
}

/// The index of the considered entry (regular file directly under
/// `root`) with the greatest modification time, the last such index when
/// several tie; `None` when no entry is considered.
pub open spec fn last_max_file(root: Seq<u8>, entries: Seq<FsEntry>) -> Option<int>
    decreases entries.len(),
{
    if entries.len() == 0 {
        None
    } else {
        let rest = last_max_file(root, entries.drop_last());
        if considered_child(root, entries.last()) {
            match rest {
                Some(b) => if entries.last().mtime >= entries[b].mtime {
                    Some(entries.len() - 1)
                } else {
                    Some(b)
                },
                None => Some(entries.len() - 1),
            }
        } else {
            rest
        }
    }
}

/// The copy phase of a task's plan: in most-recent-only mode, the steps
/// for the single most recently modified regular file directly under the
/// source root, or a no-files report when there is none; otherwise the
/// steps for every source entry in order.
pub open spec fn copy_plan(task: TaskConfig, src: Seq<FsEntry>, tgt: Seq<FsEntry>) -> Seq<
    StepModel,
> {
    if task.most_recent_only {
        match last_max_file(task.source@, src) {
            Some(i) => copy_steps(task, seq![src[i]], tgt),
            None => seq![StepModel::NoFiles { source: task.source@ }],
        }
    } else {
        copy_steps(task, src, tgt)
    }
}

/// A task's whole plan: the copy phase followed, when `remove_deleted`
/// is set, by the deletion pass over the target entries.
pub open spec fn plan_spec(task: TaskConfig, src: Seq<FsEntry>, tgt: Seq<FsEntry>) -> Seq<
    StepModel,
> {
    copy_plan(task, src, tgt) + if task.remove_deleted {
        delete_steps(task, tgt, src)
    } else {
        Seq::empty()
    }
}

/// The model of an optional step.
pub open spec fn opt_step_view(o: Option<Step>) -> Option<StepModel> {
    match o {
        Some(s) => Some(s@),
        None => None,
    }
}

proof fn lemma_find_spec_skip(entries: Seq<FsEntry>, p: Seq<u8>, i: int)
    requires
        0 <= i <= entries.len(),
        forall|j: int| 0 <= j < i ==> entries[j].path@ != p,
    ensures
        find_spec(entries, p) == find_spec(entries.subrange(i, entries.len() as int), p),
    decreases i,
{
    if i == 0 {
        assert(entries.subrange(0, entries.len() as int) =~= entries);
    } else {
        let tail = entries.drop_first();
        lemma_find_spec_skip(tail, p, i - 1);
        assert(tail.subrange(i - 1, tail.len() as int) =~= entries.subrange(
            i,
            entries.len() as int,
        ));
    }
}

/// Finds the index of the first entry whose path equals `p`.
pub fn find_entry(entries: &Vec<FsEntry>, p: &Vec<u8>) -> (r: Option<usize>)
    ensures
        match r {
            Some(j) => j < entries@.len() && entries@[j as int].path@ == p@ && find_spec(
                entries@,
                p@,
            ) == Some(entries@[j as int]),
            None => find_spec(entries@, p@) is None,
        },
{
    let mut i: usize = 0;
    while i < entries.len()
        invariant
            i <= entries@.len(),
            forall|j: int| 0 <= j < i ==> entries@[j].path@ != p@,
        decreases entries.len() - i,
    {
        if crate::paths::bytes_eq(&entries[i].path, p) {
            proof {
                lemma_find_spec_skip(entries@, p@, i as int);
                let suffix = entries@.subrange(i as int, entries@.len() as int);
                assert(suffix[0] == entries@[i as int]);
            }
            return Some(i);
        }
        i += 1;
    }
    proof {
        lemma_find_spec_skip(entries@, p@, entries@.len() as int);
    }
    None
}

/// Selects the most recently modified regular file directly under
/// `root` among `entries`, returning the last such index when
/// modification times tie; `None` when no entry is such a file.
pub fn select_most_recent(root: &Vec<u8>, entries: &Vec<FsEntry>) -> (r: Option<usize>)
    ensures
        match r {
            Some(i) => i < entries@.len() && last_max_file(root@, entries@) == Some(i as int),
            None => last_max_file(root@, entries@) is None,
        },
{
    let mut best: Option<usize> = None;
    let mut i: usize = 0;
    while i < entries.len()
        invariant
            i <= entries@.len(),
            match best {
                Some(b) => b < i && last_max_file(root@, entries@.subrange(0, i as int)) == Some(
                    b as int,
                ),
                None => last_max_file(root@, entries@.subrange(0, i as int)) is None,
            },
        decreases entries.len() - i,
    {
        proof {
            let pre = entries@.subrange(0, i as int);
            let post = entries@.subrange(0, i as int + 1);
            assert(post.drop_last() =~= pre);
            assert(post.last() == entries@[i as int]);
            assert(forall|b: int| 0 <= b < i ==> post[b] == entries@[b]);
        }
        if entries[i].is_file && direct_child_check(&entries[i].path, root) {
            best = match best {
                Some(b) => {
                    if entries[i].mtime >= entries[b].mtime {
                        Some(i)
                    } else {
                        Some(b)
                    }
                },
                None => Some(i),
            };
        }
        i += 1;
    }
    proof {
        assert(entries@.subrange(0, entries@.len() as int) =~= entries@);
    }
    best
}

/// Computes the copy-phase step, if any, for one source entry, against
/// the target snapshot. The entry must lie under the task's source root,
/// as every entry produced by walking that root does.
pub fn copy_step_for(task: &TaskConfig, e: &FsEntry, tgt: &Vec<FsEntry>) -> (r: Option<Step>)
    requires
        strip_ok(e.path@, task.source@),
    ensures
        opt_step_view(r) == copy_step_of(*task, *e, tgt@),
{
    if is_excluded(&e.path, &task.exclude) {
        return Some(Step::SkipExcluded { path: copy_bytes(&e.path) });
    }
    if !e.is_file {
        return None;
    }
    let rel = match strip_prefix(&e.path, &task.source) {
        Some(rel) => rel,
        None => {
            proof {
                assert(false);
            }
            return None;
        },
    };
    let tp = join_path(&task.target, &rel);
    match find_entry(tgt, &tp) {
        None => Some(Step::CopyNew { src: copy_bytes(&e.path), tgt: tp }),
        Some(j) => {
            if task.skip_crc {
                None
            } else if !tgt[j].is_file {
                Some(Step::SkipUnreadable { src: copy_bytes(&e.path), tgt: tp })
            } else if checksums_match(&tgt[j].content, &e.content) {
                None
            } else {
                Some(Step::CopyChanged { src: copy_bytes(&e.path), tgt: tp })
            }
        },
    }
}

/// Computes the deletion-pass step, if any, for one target entry, against
/// the source snapshot. The entry must lie under the task's target root.
pub fn delete_step_for(task: &TaskConfig, e: &FsEntry, src_entries: &Vec<FsEntry>) -> (r: Option<
    Step,
>)
    requires
        strip_ok(e.path@, task.target@),
    ensures
        opt_step_view(r) == delete_step_of(*task, *e, src_entries@),
{
    let rel = match strip_prefix(&e.path, &task.target) {
        Some(rel) => rel,
        None => {
            proof {
                assert(false);
            }
            return None;
        },
    };
    let sp = join_path(&task.source, &rel);
    match find_entry(src_entries, &sp) {
        Some(_) => None,
        None => Some(Step::Delete { path: copy_bytes(&e.path), is_file: e.is_file }),
    }
}

/// Plans one task: the copy phase over the selected source entries, then,
/// when `remove_deleted` is set, the deletion pass over the target
/// entries. The snapshots are full tree walks of the task's two roots,
/// in every mode, so every entry relativizes against its root. In
/// most-recent-only mode the engine itself restricts the copy phase to
/// the regular files directly under the source root, while the deletion
/// pass still measures existence against the whole source tree.
pub fn plan_task(task: &TaskConfig, src_entries: &Vec<FsEntry>, tgt_entries: &Vec<FsEntry>) -> (plan:
    Vec<Step>)
    requires
        rooted_under(src_entries@, task.source@),
        rooted_under(tgt_entries@, task.target@),
    ensures
        steps_view(plan@) == plan_spec(*task, src_entries@, tgt_entries@),
{
    let mut plan: Vec<Step> = Vec::new();
    if task.most_recent_only {
        match select_most_recent(&task.source, src_entries) {
            Some(i) => {
                let st = copy_step_for(task, &src_entries[i], tgt_entries);
                let ghost single = seq![src_entries@[i as int]];
                proof {
                    assert(single.drop_last() =~= Seq::<FsEntry>::empty());
                    assert(single.last() == src_entries@[i as int]);
                    assert(copy_steps(*task, Seq::<FsEntry>::empty(), tgt_entries@)
                        == Seq::<StepModel>::empty());
                    assert(steps_view(Seq::<Step>::empty()) == Seq::<StepModel>::empty());
                }
                match st {
                    Some(s) => {
                        plan.push(s);
                        proof {
                            assert(plan@.drop_last() =~= Seq::<Step>::empty());
                            assert(steps_view(plan@) == copy_steps(*task, single, tgt_entries@));
                        }
                    },
                    None => {
                        proof {
                            assert(steps_view(plan@) == copy_steps(*task, single, tgt_entries@));
                        }
                    },
                }
            },
            None => {
                let report = Step::NoFiles { source: copy_bytes(&task.source) };
                plan.push(report);
                proof {
                    assert(plan@.drop_last() =~= Seq::<Step>::empty());
                    assert(steps_view(Seq::<Step>::empty()) == Seq::<StepModel>::empty());
                    assert(steps_view(plan@) =~= seq![
                        StepModel::NoFiles { source: task.source@ },
                    ]);
                }
            },
        }
    } else {
        let mut i: usize = 0;
        while i < src_entries.len()
            invariant
                i <= src_entries@.len(),
                rooted_under(src_entries@, task.source@),
                steps_view(plan@) == copy_steps(
                    *task,
                    src_entries@.subrange(0, i as int),
                    tgt_entries@,
                ),
            decreases src_entries.len() - i,
        {
            let st = copy_step_for(task, &src_entries[i], tgt_entries);
            proof {
                let pre = src_entries@.subrange(0, i as int);
                let post = src_entries@.subrange(0, i as int + 1);
                assert(post.drop_last() =~= pre);
                assert(post.last() == src_entries@[i as int]);
            }
            let ghost prev = plan@;
            match st {
                Some(s) => {
                    plan.push(s);
                    proof {
                        assert(plan@.drop_last() =~= prev);
                    }
                },
                None => {},
            }
            i += 1;
        }
        proof {
            assert(src_entries@.subrange(0, src_entries@.len() as int) =~= src_entries@);
        }
    }
    proof {
        assert(steps_view(plan@) == copy_plan(*task, src_entries@, tgt_entries@));
    }
    let ghost copies = plan@;
    if task.remove_deleted {
        let mut j: usize = 0;
        while j < tgt_entries.len()
            invariant
                j <= tgt_entries@.len(),
                rooted_under(tgt_entries@, task.target@),
                steps_view(copies) == copy_plan(*task, src_entries@, tgt_entries@),
                copies.len() <= plan@.len(),
                plan@.subrange(0, copies.len() as int) =~= copies,
                steps_view(plan@) == steps_view(copies) + delete_steps(
                    *task,
                    tgt_entries@.subrange(0, j as int),
                    src_entries@,
                ),
            decreases tgt_entries.len() - j,
        {
            let st = delete_step_for(task, &tgt_entries[j], src_entries);
            proof {
                let pre = tgt_entries@.subrange(0, j as int);
                let post = tgt_entries@.subrange(0, j as int + 1);
                assert(post.drop_last() =~= pre);
                assert(post.last() == tgt_entries@[j as int]);
            }
            let ghost prev = plan@;
            match st {
                Some(s) => {
                    plan.push(s);
                    proof {
                        assert(plan@.drop_last() =~= prev);
                        assert(plan@.subrange(0, copies.len() as int) =~= prev.subrange(
                            0,
                            copies.len() as int,
                        ));
                    }
                },
                None => {},
            }
            j += 1;
        }
        proof {
            assert(tgt_entries@.subrange(0, tgt_entries@.len() as int) =~= tgt_entries@);
        }
    } else {
        proof {
            assert(steps_view(plan@) =~= steps_view(copies) + Seq::<StepModel>::empty());
        }
    }
    plan
}

/// Plans every task of a configuration, in declared order, each against
/// its own pair of snapshots. Tasks are independent: one plan is computed
/// per task whatever the other tasks' plans hold.
pub fn iterate_tasks(config: &Config, snapshots: &Vec<TaskSnapshot>) -> (plans: Vec<Vec<Step>>)
    requires
        config.task@.len() == snapshots@.len(),
        forall|i: int| 0 <= i < snapshots@.len() ==> rooted_under(
            (#[trigger] snapshots@[i]).source_entries@,
            config.task@[i].source@,
        ) && rooted_under(snapshots@[i].target_entries@, config.task@[i].target@),
    ensures
        plans@.len() == config.task@.len(),
        forall|i: int| 0 <= i < plans@.len() ==> steps_view((#[trigger] plans@[i])@) == plan_spec(
            config.task@[i],
            snapshots@[i].source_entries@,
            snapshots@[i].target_entries@,
        ),
{
    let mut plans: Vec<Vec<Step>> = Vec::new();
    let mut i: usize = 0;
    while i < config.task.len()
        invariant
            config.task@.len() == snapshots@.len(),
            i <= config.task@.len(),
            plans@.len() == i,
            forall|k: int| 0 <= k < snapshots@.len() ==> rooted_under(
                (#[trigger] snapshots@[k]).source_entries@,
                config.task@[k].source@,
            ) && rooted_under(snapshots@[k].target_entries@, config.task@[k].target@),
            forall|k: int| 0 <= k < i ==> steps_view((#[trigger] plans@[k])@) == plan_spec(
                config.task@[k],
                snapshots@[k].source_entries@,
                snapshots@[k].target_entries@,
            ),
        decreases config.task.len() - i,
    {
        let plan = plan_task(
            &config.task[i],
            &snapshots[i].source_entries,
            &snapshots[i].target_entries,
        );
        plans.push(plan);
        i += 1;
    }
    plans
}

} // verus!
