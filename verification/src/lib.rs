//! Structural and content difference between two directory trees.
//!
//! A comparison scans each tree and reconciles the two scans. A scan goes in
//! three steps: [`select_files`] picks from what a walk of the tree reported
//! the regular files below the root; [`fingerprint::Hash::new`] fingerprints
//! each of them from the outcome of reading it; and [`process_directory`]
//! collects the fingerprints by relative path into a [`TreeMapping`].
//! [`dirdiff`] then reconciles two such mappings into a [`CmpResult`]: the
//! paths found only in the first tree, only in the second, and in both with
//! different contents. What holds of every comparison is proved in [`laws`].
//!
//! Walking the file system and reading files is left to the caller: the
//! functions here work on plain values, and each is verified against the
//! mathematical model that its contract names. One thing is taken on trust,
//! the MD5 digest that the `md5` crate computes and its textual form; see
//! [`digest`].

pub mod digest;
pub mod fingerprint;
pub mod laws;
pub mod reconcile;
pub mod tree;
pub mod walk;

pub use reconcile::{dirdiff, CmpResult};
pub use tree::{process_directory, FileInfo, TreeMapping};
pub use walk::{select_files, WalkEntry};
