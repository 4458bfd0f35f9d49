//! Flags leading comment blocks that may have gone stale: the declaration they
//! document changed in a revision range while the comment itself did not.
//!
//! The crate is the diff-to-syntax-tree correlation engine. It extracts the
//! changed lines from a zero-context unified diff, pairs each documentable
//! declaration of a syntax tree with its leading comment block, and decides
//! which blocks to report.

pub mod check;
pub mod comments;
pub mod diff;
pub mod lines;
pub mod parse;
pub mod report;
pub mod staleness;
pub mod syntax;
