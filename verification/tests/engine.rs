use dirsync::engine::{Config, FsEntry, Step, TaskConfig, TaskSnapshot};
use dirsync::{iterate_tasks, plan_task};

fn b(s: &str) -> Vec<u8> {
    s.as_bytes().to_vec()
}

fn file(path: &str, mtime: u64, content: &str) -> FsEntry {
    FsEntry { path: b(path), is_file: true, mtime, content: b(content) }
}

fn dir(path: &str) -> FsEntry {
    FsEntry { path: b(path), is_file: false, mtime: 0, content: Vec::new() }
}

fn task(source: &str, target: &str) -> TaskConfig {
    TaskConfig {
        source: b(source),
        target: b(target),
        exclude: Vec::new(),
        remove_deleted: false,
        most_recent_only: false,
        skip_crc: false,
    }
}

fn copy_new(src: &str, tgt: &str) -> Step {
    Step::CopyNew { src: b(src), tgt: b(tgt) }
}

#[test]
fn end_to_end_copy() {
    let t = task("S", "T");
    let src = vec![
        dir("S"),
        file("S/a.txt", 1, "x"),
        dir("S/sub"),
        file("S/sub/b.txt", 1, "y"),
    ];
    let tgt: Vec<FsEntry> = Vec::new();
    let plan = plan_task(&t, &src, &tgt);
    assert_eq!(
        plan,
        vec![copy_new("S/a.txt", "T/a.txt"), copy_new("S/sub/b.txt", "T/sub/b.txt")]
    );
}

#[test]
fn end_to_end_deletion() {
    let mut t = task("S", "T");
    t.remove_deleted = true;
    let src = vec![dir("S"), file("S/a.txt", 1, "x")];
    let tgt = vec![dir("T"), file("T/a.txt", 5, "x"), file("T/old.txt", 5, "z")];
    let plan = plan_task(&t, &src, &tgt);
    assert_eq!(plan, vec![Step::Delete { path: b("T/old.txt"), is_file: true }]);
}

#[test]
fn deletion_removes_orphan_directory() {
    let mut t = task("S", "T");
    t.remove_deleted = true;
    let src = vec![dir("S")];
    let tgt = vec![dir("T"), dir("T/gone"), file("T/gone/f.txt", 1, "q")];
    let plan = plan_task(&t, &src, &tgt);
    assert_eq!(
        plan,
        vec![
            Step::Delete { path: b("T/gone"), is_file: false },
            Step::Delete { path: b("T/gone/f.txt"), is_file: true },
        ]
    );
}

#[test]
fn change_detection_recopies_differing_content() {
    let t = task("S", "T");
    let src = vec![dir("S"), file("S/a.txt", 2, "x")];
    let tgt = vec![dir("T"), file("T/a.txt", 1, "w")];
    let plan = plan_task(&t, &src, &tgt);
    assert_eq!(plan, vec![Step::CopyChanged { src: b("S/a.txt"), tgt: b("T/a.txt") }]);
}

#[test]
fn change_detection_skips_equal_content() {
    let t = task("S", "T");
    let src = vec![dir("S"), file("S/a.txt", 2, "x")];
    let tgt = vec![dir("T"), file("T/a.txt", 1, "x")];
    let plan = plan_task(&t, &src, &tgt);
    assert!(plan.is_empty());
}

#[test]
fn skip_crc_short_circuits_on_existence() {
    let mut t = task("S", "T");
    t.skip_crc = true;
    let src = vec![dir("S"), file("S/a.txt", 2, "x")];
    let tgt = vec![dir("T"), file("T/a.txt", 1, "completely different")];
    let plan = plan_task(&t, &src, &tgt);
    assert!(plan.is_empty());
}

#[test]
fn skip_crc_still_copies_missing_file() {
    let mut t = task("S", "T");
    t.skip_crc = true;
    let src = vec![dir("S"), file("S/a.txt", 2, "x")];
    let tgt = vec![dir("T")];
    let plan = plan_task(&t, &src, &tgt);
    assert_eq!(plan, vec![copy_new("S/a.txt", "T/a.txt")]);
}

#[test]
fn exclusion_skips_matching_paths() {
    let mut t = task("S", "T");
    t.exclude = vec![b("sub")];
    let src = vec![
        dir("S"),
        file("S/a.txt", 1, "x"),
        dir("S/sub"),
        file("S/sub/b.txt", 1, "y"),
    ];
    let tgt: Vec<FsEntry> = Vec::new();
    let plan = plan_task(&t, &src, &tgt);
    assert_eq!(
        plan,
        vec![
            copy_new("S/a.txt", "T/a.txt"),
            Step::SkipExcluded { path: b("S/sub") },
            Step::SkipExcluded { path: b("S/sub/b.txt") },
        ]
    );
}

#[test]
fn exclusion_matches_mid_segment() {
    let mut t = task("S", "T");
    t.exclude = vec![b("a.t")];
    let src = vec![dir("S"), file("S/a.txt", 1, "x"), file("S/b.txt", 1, "y")];
    let tgt: Vec<FsEntry> = Vec::new();
    let plan = plan_task(&t, &src, &tgt);
    assert_eq!(
        plan,
        vec![
            Step::SkipExcluded { path: b("S/a.txt") },
            copy_new("S/b.txt", "T/b.txt"),
        ]
    );
}

#[test]
fn excluded_target_entry_not_created_or_updated() {
    // Whether the mapped target path is missing or holds stale content,
    // an excluded source path never produces a copy.
    let mut t = task("S", "T");
    t.exclude = vec![b("a.txt")];
    let src = vec![dir("S"), file("S/a.txt", 1, "fresh")];
    let tgt = vec![dir("T"), file("T/a.txt", 1, "stale")];
    let plan = plan_task(&t, &src, &tgt);
    assert_eq!(plan, vec![Step::SkipExcluded { path: b("S/a.txt") }]);
}

#[test]
fn most_recent_only_picks_newest() {
    let mut t = task("S", "T");
    t.most_recent_only = true;
    let src = vec![
        file("S/one.txt", 1, "1"),
        file("S/two.txt", 2, "2"),
        file("S/three.txt", 3, "3"),
    ];
    let tgt: Vec<FsEntry> = Vec::new();
    let plan = plan_task(&t, &src, &tgt);
    assert_eq!(plan, vec![copy_new("S/three.txt", "T/three.txt")]);
}

#[test]
fn most_recent_only_tie_takes_last() {
    let mut t = task("S", "T");
    t.most_recent_only = true;
    let src = vec![file("S/first.txt", 7, "1"), file("S/second.txt", 7, "2")];
    let tgt: Vec<FsEntry> = Vec::new();
    let plan = plan_task(&t, &src, &tgt);
    assert_eq!(plan, vec![copy_new("S/second.txt", "T/second.txt")]);
}

#[test]
fn most_recent_only_ignores_directories() {
    let mut t = task("S", "T");
    t.most_recent_only = true;
    let src = vec![dir("S/newer_dir"), file("S/old.txt", 1, "1")];
    let tgt: Vec<FsEntry> = Vec::new();
    let plan = plan_task(&t, &src, &tgt);
    assert_eq!(plan, vec![copy_new("S/old.txt", "T/old.txt")]);
}

#[test]
fn most_recent_only_ignores_nested_files() {
    // Selection considers only direct children of the source root, even
    // when a nested file is newer.
    let mut t = task("S", "T");
    t.most_recent_only = true;
    let src = vec![
        dir("S"),
        file("S/a.txt", 1, "1"),
        dir("S/sub"),
        file("S/sub/deep.txt", 9, "9"),
    ];
    let tgt: Vec<FsEntry> = Vec::new();
    let plan = plan_task(&t, &src, &tgt);
    assert_eq!(plan, vec![copy_new("S/a.txt", "T/a.txt")]);
}

#[test]
fn most_recent_with_deletion_keeps_nested_counterparts() {
    // The deletion pass measures existence against the whole source
    // tree, so a target entry mirroring a nested source entry survives
    // even though most-recent selection never considers that entry.
    let mut t = task("S", "T");
    t.most_recent_only = true;
    t.remove_deleted = true;
    let src = vec![
        dir("S"),
        file("S/a.txt", 5, "x"),
        dir("S/sub"),
        file("S/sub/b.txt", 1, "y"),
    ];
    let tgt = vec![
        dir("T"),
        file("T/a.txt", 5, "x"),
        dir("T/sub"),
        file("T/sub/b.txt", 1, "y"),
        file("T/orphan.txt", 1, "z"),
    ];
    let plan = plan_task(&t, &src, &tgt);
    assert_eq!(plan, vec![Step::Delete { path: b("T/orphan.txt"), is_file: true }]);
}

#[test]
fn empty_source_full_mode_plans_nothing() {
    let t = task("S", "T");
    let src: Vec<FsEntry> = Vec::new();
    let tgt: Vec<FsEntry> = Vec::new();
    let plan = plan_task(&t, &src, &tgt);
    assert!(plan.is_empty());
}

#[test]
fn empty_source_most_recent_reports_no_files() {
    let mut t = task("S", "T");
    t.most_recent_only = true;
    let src: Vec<FsEntry> = Vec::new();
    let tgt: Vec<FsEntry> = Vec::new();
    let plan = plan_task(&t, &src, &tgt);
    assert_eq!(plan, vec![Step::NoFiles { source: b("S") }]);
}

#[test]
fn idempotent_second_run_copies_nothing() {
    let t = task("S", "T");
    let src = vec![
        dir("S"),
        file("S/a.txt", 1, "x"),
        dir("S/sub"),
        file("S/sub/b.txt", 1, "y"),
    ];
    let tgt: Vec<FsEntry> = Vec::new();
    let first = plan_task(&t, &src, &tgt);
    assert_eq!(first.len(), 2);
    // The target tree after faithfully performing the two copies.
    let tgt2 = vec![
        dir("T"),
        file("T/a.txt", 9, "x"),
        dir("T/sub"),
        file("T/sub/b.txt", 9, "y"),
    ];
    let second = plan_task(&t, &src, &tgt2);
    assert!(second.is_empty());
}

#[test]
fn deletion_keeps_entries_with_source_counterpart() {
    let mut t = task("S", "T");
    t.remove_deleted = true;
    let src = vec![dir("S"), dir("S/sub"), file("S/sub/b.txt", 1, "y")];
    let tgt = vec![dir("T"), dir("T/sub"), file("T/sub/b.txt", 1, "y")];
    let plan = plan_task(&t, &src, &tgt);
    assert!(plan.is_empty());
}

#[test]
fn non_file_at_mapped_target_path_reported_not_overwritten() {
    // A directory (or an unreadable file) sits where the mapped file
    // would go: no checksum can be computed, so the skip is reported and
    // nothing is overwritten.
    let t = task("S", "T");
    let src = vec![dir("S"), file("S/a.txt", 1, "x")];
    let tgt = vec![dir("T"), dir("T/a.txt")];
    let plan = plan_task(&t, &src, &tgt);
    assert_eq!(
        plan,
        vec![Step::SkipUnreadable { src: b("S/a.txt"), tgt: b("T/a.txt") }]
    );
}

#[test]
fn iterate_tasks_plans_each_task_in_order() {
    let t1 = task("S1", "T1");
    let mut t2 = task("S2", "T2");
    t2.remove_deleted = true;
    let config = Config { task: vec![t1, t2] };
    let snapshots = vec![
        TaskSnapshot {
            source_entries: vec![dir("S1"), file("S1/a.txt", 1, "x")],
            target_entries: Vec::new(),
        },
        TaskSnapshot {
            source_entries: vec![dir("S2")],
            target_entries: vec![dir("T2"), file("T2/stale.txt", 1, "z")],
        },
    ];
    let plans = iterate_tasks(&config, &snapshots);
    assert_eq!(plans.len(), 2);
    assert_eq!(plans[0], vec![copy_new("S1/a.txt", "T1/a.txt")]);
    assert_eq!(plans[1], vec![Step::Delete { path: b("T2/stale.txt"), is_file: true }]);
}
