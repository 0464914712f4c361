//! What the status of a managed dictionary shows.

use vstd::prelude::*;
use crate::clob::{ClobDiff, ClobValidationIssue, DiffStats, diffs_view, count_adds, count_updates, count_deletes};
use crate::issue::ToolboxFileIssue;

verus! {

/// The state of one managed dictionary.
pub struct ManagedFileSummary {
    /// The dictionary's name for display.
    pub display_name: String,
    /// The directory of its content objects.
    pub contents_path: String,
    /// The changes not staged yet.
    pub unstaged_diff: Vec<ClobDiff>,
    /// The changes staged already.
    pub staged_diff: Vec<ClobDiff>,
    /// Edits made outside the pipeline.
    pub workdir_issues: Vec<ClobValidationIssue>,
    /// Diagnostics in the dictionary's contents.
    pub toolbox_issues: Vec<ToolboxFileIssue>,
}

impl ManagedFileSummary {
    pub fn any_workdir_issues(&self) -> (r: bool)
        ensures
            r == (self.workdir_issues@.len() > 0),
    {
        !self.workdir_issues.is_empty()
    }

    pub fn any_toolbox_issues(&self) -> (r: bool)
        ensures
            r == (self.toolbox_issues@.len() > 0),
    {
        !self.toolbox_issues.is_empty()
    }

    pub fn any_staged(&self) -> (r: bool)
        ensures
            r == (self.staged_diff@.len() > 0),
    {
        !self.staged_diff.is_empty()
    }

    pub fn any_unstaged(&self) -> (r: bool)
        ensures
            r == (self.unstaged_diff@.len() > 0),
    {
        !self.unstaged_diff.is_empty()
    }

    /// The counts of the changes not staged yet.
    pub fn unstaged_diff_stats(&self) -> (r: DiffStats)
        ensures
            r.added == count_adds(diffs_view(self.unstaged_diff@)),
            r.changed == count_updates(diffs_view(self.unstaged_diff@)),
            r.deleted == count_deletes(diffs_view(self.unstaged_diff@)),
    {
        DiffStats::count(self.unstaged_diff.as_slice())
    }

    /// The counts of the staged changes.
    pub fn staged_diff_stats(&self) -> (r: DiffStats)
        ensures
            r.added == count_adds(diffs_view(self.staged_diff@)),
            r.changed == count_updates(diffs_view(self.staged_diff@)),
            r.deleted == count_deletes(diffs_view(self.staged_diff@)),
    {
        DiffStats::count(self.staged_diff.as_slice())
    }
}

} // verus!
