//! What resetting a managed dictionary would restore.

use vstd::prelude::*;
use crate::clob::{ClobDiff, DiffStats, diffs_view, count_adds, count_updates, count_deletes};
use crate::issue::ToolboxFileIssue;

verus! {

/// The state of one managed dictionary, before a reset.
pub struct ManagedFileSummary {
    /// The dictionary's name for display.
    pub display_name: String,
    /// The dictionary's path, relative to the repository.
    pub path: String,
    /// The directory of its content objects.
    pub contents_path: String,
    /// The changes not staged yet.
    pub unstaged_diff: Vec<ClobDiff>,
    /// Diagnostics in the dictionary's contents.
    pub toolbox_issues: Vec<ToolboxFileIssue>,
}

impl ManagedFileSummary {
    pub fn any_unstaged(&self) -> (r: bool)
        ensures
            r == (self.unstaged_diff@.len() > 0),
    {
        !self.unstaged_diff.is_empty()
    }

    /// The counts of what a reset restores: what staging would add, a reset
    /// deletes, and the other way round.
    pub fn restore_stats(&self) -> (r: DiffStats)
        ensures
            r.added == count_deletes(diffs_view(self.unstaged_diff@)),
            r.changed == count_updates(diffs_view(self.unstaged_diff@)),
            r.deleted == count_adds(diffs_view(self.unstaged_diff@)),
    {
        let stats = DiffStats::count(self.unstaged_diff.as_slice());
        DiffStats { added: stats.deleted, changed: stats.changed, deleted: stats.added }
    }

    /// Whether the dictionary lacks its header.
    pub fn missing_header(&self) -> (r: bool)
        ensures
            r == exists|i: int|
                0 <= i < self.toolbox_issues@.len() && (#[trigger] self.toolbox_issues@[i])@ is MissingDictionaryHeader,
    {
        let mut i: usize = 0;
        while i < self.toolbox_issues.len()
            invariant
                i <= self.toolbox_issues@.len(),
                forall|j: int| 0 <= j < i ==> !((#[trigger] self.toolbox_issues@[j])@ is MissingDictionaryHeader),
            decreases self.toolbox_issues.len() - i,
        {
            if self.toolbox_issues[i].is_missing_header() {
                return true;
            }
            i = i + 1;
        }
        false
    }
}

} // verus!
