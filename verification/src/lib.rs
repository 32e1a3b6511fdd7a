//! A binary delta-package engine for directory trees.
//!
//! The library scans a tracked directory into a content-addressed snapshot,
//! compares two snapshots into an add/change/delete diff, bundles the diff
//! with the changed file contents into a single-file binary container, and
//! plans the application of such a container to a target directory.
//!
//! All file system access stays outside the library: callers hand in file
//! contents as plain values and carry out the write/delete plan the library
//! returns.

pub mod archive;
pub mod container;
pub mod diff;
pub mod error;
pub mod globs;
pub mod hashing;
pub mod json;
pub mod manifest;
pub mod metadata;
pub mod package;
pub mod pathmap;
pub mod seqs;
pub mod state;
pub mod text;
pub mod update;

pub use crate::diff::Diff;
pub use crate::error::Error;
pub use crate::manifest::Manifest;
pub use crate::metadata::Metadata;
pub use crate::state::State;
