//! The commands the tool runs.

use vstd::prelude::*;

verus! {

/// A command of the tool.
pub enum Command {
    /// Configure the repository (or write a sample configuration).
    Setup { init: bool },
    /// Show the state of the managed dictionaries.
    Status { files: Vec<String>, verbose: bool },
    /// Stage the changes of the managed dictionaries.
    Stage { files: Vec<String>, verbose: bool, discard_workdir_changes: bool },
    /// Restore the managed dictionaries from the index.
    Reset { files: Vec<String>, verbose: bool, force: bool },
    /// The content filter's clean step for a managed file.
    FilterClean { path: String },
    /// The content filter's smudge step for a managed file.
    FilterSmudge { path: String },
    /// Print the reassembled text of a managed file at a revision.
    Reconstruct { pathspec: String, bare: bool },
}

} // verus!
