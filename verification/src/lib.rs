//! Verified core of a one-way directory synchronization tool.
//!
//! Each task mirrors a source directory tree into a target directory:
//! unchanged files (equal content checksum) are skipped, paths containing
//! an exclude substring are skipped, and optionally target entries with no
//! source counterpart are deleted. The engine here is pure: it receives
//! snapshots of the two trees (paths, kinds, modification times and file
//! contents as plain bytes) and produces the exact sequence of copy and
//! delete steps that an unverified shell then performs on the filesystem.

pub mod args;
pub mod checksum;
pub mod engine;
pub mod laws;
pub mod paths;

pub use engine::iterate_tasks;
pub use engine::plan_task;
pub use paths::is_excluded;
