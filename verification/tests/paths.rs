use dirsync::args::{with_toml_suffix, Args, RetArgs};
use dirsync::checksum::checksums_match;
use dirsync::is_excluded;
use dirsync::paths::{contains_sub, direct_child_check, join_path, strip_prefix};

fn b(s: &str) -> Vec<u8> {
    s.as_bytes().to_vec()
}

#[test]
fn substring_found_and_missed() {
    assert!(contains_sub(&b("backup/photos/img.jpg"), &b("photos")));
    assert!(contains_sub(&b("abc"), &b("abc")));
    assert!(!contains_sub(&b("abc"), &b("abcd")));
    assert!(!contains_sub(&b("backup/photos"), &b("video")));
}

#[test]
fn empty_needle_always_matches() {
    assert!(contains_sub(&b(""), &b("")));
    assert!(contains_sub(&b("x"), &b("")));
}

#[test]
fn exclusion_requires_some_pattern() {
    let no_pats: Vec<Vec<u8>> = Vec::new();
    assert!(!is_excluded(&b("any/path"), &no_pats));
    assert!(is_excluded(&b("any/path"), &vec![b("zzz"), b("pat")]));
    assert!(!is_excluded(&b("any/path"), &vec![b("zzz")]));
    // An empty pattern occurs in every path.
    assert!(is_excluded(&b("any/path"), &vec![b("")]));
}

#[test]
fn strip_prefix_relativizes() {
    assert_eq!(strip_prefix(&b("S/a/b.txt"), &b("S")), Some(b("a/b.txt")));
    assert_eq!(strip_prefix(&b("S"), &b("S")), Some(b("")));
    assert_eq!(strip_prefix(&b("Sx/a"), &b("S")), None);
    assert_eq!(strip_prefix(&b("R/a"), &b("S")), None);
    assert_eq!(strip_prefix(&b("S/"), &b("S")), None);
}

#[test]
fn direct_children_are_single_segments() {
    assert!(direct_child_check(&b("S/a.txt"), &b("S")));
    assert!(!direct_child_check(&b("S/sub/a.txt"), &b("S")));
    assert!(!direct_child_check(&b("S"), &b("S")));
    assert!(!direct_child_check(&b("R/a.txt"), &b("S")));
}

#[test]
fn join_maps_relative_onto_root() {
    assert_eq!(join_path(&b("T"), &b("a/b.txt")), b("T/a/b.txt"));
    assert_eq!(join_path(&b("T"), &b("")), b("T"));
}

#[test]
fn strip_then_join_round_trip() {
    let path = b("S/sub/deep/f.bin");
    let rel = strip_prefix(&path, &b("S")).unwrap();
    assert_eq!(join_path(&b("S"), &rel), path);
}

#[test]
fn checksums_separate_contents() {
    assert!(checksums_match(&b("x"), &b("x")));
    assert!(!checksums_match(&b("x"), &b("z")));
    assert!(!checksums_match(&b(""), &b("x")));
    assert!(checksums_match(&b(""), &b("")));
}

#[test]
fn toml_suffix_appended_when_missing() {
    assert_eq!(with_toml_suffix(&b("config")), b("config.toml"));
    assert_eq!(with_toml_suffix(&b("config.toml")), b("config.toml"));
    assert_eq!(with_toml_suffix(&b("")), b(".toml"));
}

#[test]
fn argument_shapes_round_trip() {
    let args = Args { config: String::from("backup.toml") };
    let ret = RetArgs { config: args.config };
    assert_eq!(ret.config, "backup.toml");
}
