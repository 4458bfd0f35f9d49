//! The per-file check: from a file's source and its diff to the comment
//! blocks to warn about.

use vstd::prelude::*;
use vstd::string::*;
use crate::comments::pairs_of;
use crate::diff::{changed_lines, changed_set, has_oversized_hunk};
use crate::lines::LineRange;
use crate::parse::{parse_source, syntax_tree};
use crate::staleness::{stale_blocks_of, stale_comments};
use crate::syntax::{kinds_of, SourceLanguage};

verus! {

/// Why a file could not be checked. Each is reported and the file skipped;
/// none ends the scan.
#[derive(Clone, Copy, Debug, PartialEq, Eq, Structural, Hash)]
pub enum ScanError {
    /// The diff of the file could not be had, or could not be read.
    DiffInvocation,
    /// The file could not be read.
    FileRead,
    /// The grammar could not parse the source.
    Parse,
}

impl ScanError {
    /// What the error says, for the log.
    pub open spec fn text(self) -> Seq<char> {
        match self {
            ScanError::DiffInvocation => "the diff could not be obtained"@,
            ScanError::FileRead => "the file could not be read"@,
            ScanError::Parse => "the source could not be parsed"@,
        }
    }

    /// What the error says, for the log.
    pub fn message(&self) -> (message: String)
        ensures
            message@ == self.text(),
    {
        match self {
            ScanError::DiffInvocation => "the diff could not be obtained".to_owned(),
            ScanError::FileRead => "the file could not be read".to_owned(),
            ScanError::Parse => "the source could not be parsed".to_owned(),
        }
    }
}

/// The comment blocks to report for a file: the stale blocks of its syntax
/// tree under the changed lines of its diff, if the source has a tree.
pub open spec fn report_of(source: &str, language: SourceLanguage, diff: Seq<u8>) -> Option<
    Seq<LineRange>,
> {
    match syntax_tree(source, language) {
        Some(tree) => Some(
            stale_blocks_of(pairs_of(tree, kinds_of(language)), changed_set(diff)),
        ),
        None => None,
    }
}

/// Checks one file: `source` is its text, `language` its language and `diff`
/// the zero-context unified diff of the file over the revision range.
///
/// Returns the comment blocks that may be stale: the leading comment blocks
/// of the source's syntax tree whose declaration holds a changed line while
/// the block holds none. Fails with `DiffInvocation` exactly when a hunk
/// header of the diff has a new-side start or length beyond `usize`, and
/// otherwise with `Parse` exactly when the source has no syntax tree.
pub fn check_source(source: &str, language: SourceLanguage, diff: &[u8]) -> (report: Result<
    Vec<LineRange>,
    ScanError,
>)
    ensures
        has_oversized_hunk(diff@) ==> report == Err::<Vec<LineRange>, ScanError>(
            ScanError::DiffInvocation,
        ),
        !has_oversized_hunk(diff@) ==> match report_of(source, language, diff@) {
            Some(blocks) => report matches Ok(found) && found@ == blocks,
            None => report == Err::<Vec<LineRange>, ScanError>(ScanError::Parse),
        },
{
    let changed = match changed_lines(diff) {
        Ok(changed) => changed,
        Err(_) => {
            return Err(ScanError::DiffInvocation);
        },
    };
    let root = match parse_source(source, language) {
        Some(root) => root,
        None => {
            return Err(ScanError::Parse);
        },
    };
    let table = language.kind_table();
    Ok(stale_comments(&root, &table, &changed))
}

} // verus!
