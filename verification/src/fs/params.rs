//! The parameters of the server's tools.

use vstd::prelude::*;
use crate::fs::edit::Edit;

verus! {

/// Directory path whose immediate files and subdirectories are listed.
pub struct ReadFolderParameters {
    pub path: String,
}

/// Root directory to search, glob of the files wanted, globs to exclude.
pub struct SearchFolderParameters {
    pub path: String,
    pub pattern: String,
    pub exclude_pattern: Vec<String>,
}

/// File to read.
pub struct ReadFileParameters {
    pub path: String,
}

/// Files to read.
pub struct ReadMultipleFileParameters {
    pub paths: Vec<String>,
}

/// File whose metadata is wanted.
pub struct GetFileInfoParameters {
    pub path: String,
}

/// File to create or overwrite, and its content.
pub struct CreateFileParameters {
    pub path: String,
    pub content: String,
}

/// Directory to create.
pub struct CreateDirectoryParameter {
    pub path: String,
}

/// File to move, and where to.
pub struct MoveFileParameters {
    pub source: String,
    pub destination: String,
}

/// File to edit, its edits, and whether only the diff is wanted.
pub struct EditFileParameters {
    pub path: String,
    pub edits: Vec<Edit>,
    pub dry_run: bool,
}

} // verus!
