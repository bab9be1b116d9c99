//! Commit details from the captured outputs of a version-control tool.
//!
//! Three outputs describe one commit: a metadata block, a name-status listing
//! and a numstat listing. They travel as one buffer, framed by sentinels
//! (`framing`), and are read back into the commit's metadata (`metadata`) and
//! into one change record per file (`numstat`, `changes`), from which the
//! totals are derived (`stats`). Listings of tags and branches give the
//! references (`references`), and `commit` puts the whole record together.
//! `repository` and `workspace` read the simpler listings of a repository, and
//! `queries` says what a caller is told when the tool failed.
//!
//! Nothing here runs the tool or touches the file system: every function takes
//! captured text and returns plain values. `text` holds the primitives on
//! sequences of characters that all parsers share.

pub mod changes;
pub mod commit;
pub mod framing;
pub mod metadata;
pub mod numstat;
pub mod queries;
pub mod references;
pub mod repository;
pub mod stats;
pub mod text;
pub mod workspace;
