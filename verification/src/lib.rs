//! Finds ELF binaries under a directory and groups them by owner.
//!
//! The library holds the decisions: which directory entries a walk skips,
//! enters or keeps, how a file's first bytes are classified, and how the
//! files that were kept are grouped by owner, summed and ranked. Reading
//! directories and files is left to the caller, who hands in what it read as
//! plain values.

pub mod classify;
pub mod entry;
pub mod owners;
pub mod pattern;
pub mod ranking;
pub mod report;
pub mod userdb;
pub mod walker;
