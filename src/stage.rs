//! What staging a dictionary found, and the rule that protects edits made
//! outside the pipeline.

use vstd::prelude::*;
use crate::clob::{ClobDiff, ClobDiffV, ClobValidationIssue, ClobValidationIssueV, diffs_view, diff_path, issue_path};
use crate::issue::ToolboxFileIssue;
use crate::workdir::validation_issues_view;
use crate::text::strings_view;

verus! {

/// What staging one managed dictionary would do.
pub struct StagedFileSummary {
    /// The dictionary's name for display.
    pub display_name: String,
    /// The dictionary's path, relative to the repository.
    pub path: String,
    /// The directory of its content objects.
    pub contents_path: String,
    /// The changes not staged yet.
    pub unstaged_diff: Vec<ClobDiff>,
    /// Edits made outside the pipeline.
    pub workdir_issues: Vec<ClobValidationIssue>,
    /// Diagnostics in the dictionary's contents.
    pub toolbox_issues: Vec<ToolboxFileIssue>,
}

/// Whether some change would overwrite a path that was edited outside the pipeline.
pub open spec fn overwrites_edits(diffs: Seq<ClobDiffV>, issues: Seq<ClobValidationIssueV>) -> bool {
    exists|i: int, j: int|
        0 <= i < diffs.len() && 0 <= j < issues.len() && diff_path(#[trigger] diffs[i]) == issue_path(
            #[trigger] issues[j],
        )
}

impl StagedFileSummary {
    pub fn any_workdir_issues(&self) -> (r: bool)
        ensures
            r == (self.workdir_issues@.len() > 0),
    {
        !self.workdir_issues.is_empty()
    }

    /// Whether staging would overwrite an edit made outside the pipeline.
    pub fn workdir_changes_will_be_lost(&self) -> (r: bool)
        ensures
            r == overwrites_edits(diffs_view(self.unstaged_diff@), validation_issues_view(self.workdir_issues@)),
    {
        let ghost ds = diffs_view(self.unstaged_diff@);
        let ghost is = validation_issues_view(self.workdir_issues@);
        let mut i: usize = 0;
        while i < self.unstaged_diff.len()
            invariant
                ds == diffs_view(self.unstaged_diff@),
                is == validation_issues_view(self.workdir_issues@),
                i <= ds.len(),
                forall|a: int, b: int|
                    0 <= a < i && 0 <= b < is.len() ==> diff_path(#[trigger] ds[a]) != issue_path(#[trigger] is[b]),
            decreases self.unstaged_diff.len() - i,
        {
            let p = self.unstaged_diff[i].path();
            let mut j: usize = 0;
            while j < self.workdir_issues.len()
                invariant
                    ds == diffs_view(self.unstaged_diff@),
                    is == validation_issues_view(self.workdir_issues@),
                    i < ds.len(),
                    p@ == diff_path(ds[i as int]),
                    j <= is.len(),
                    forall|b: int| 0 <= b < j ==> diff_path(ds[i as int]) != issue_path(#[trigger] is[b]),
                decreases self.workdir_issues.len() - j,
            {
                let q = self.workdir_issues[j].path();
                if *p == q {
                    assert(diff_path(ds[i as int]) == issue_path(is[j as int]));
                    return true;
                }
                j = j + 1;
            }
            i = i + 1;
        }
        false
    }

    pub fn any_toolbox_issues(&self) -> (r: bool)
        ensures
            r == (self.toolbox_issues@.len() > 0),
    {
        !self.toolbox_issues.is_empty()
    }

    pub fn any_unstaged(&self) -> (r: bool)
        ensures
            r == (self.unstaged_diff@.len() > 0),
    {
        !self.unstaged_diff.is_empty()
    }
}

/// Whether staging a dictionary would overwrite an edit made outside the pipeline.
pub open spec fn loses_edits(s: StagedFileSummary) -> bool {
    overwrites_edits(diffs_view(s.unstaged_diff@), validation_issues_view(s.workdir_issues@))
}

pub open spec fn loses_edits_pred() -> spec_fn(StagedFileSummary) -> bool {
    |s: StagedFileSummary| loses_edits(s)
}

/// Whether staging may go on: unless told to discard outside edits, it may
/// not when some dictionary's changes would overwrite them. On refusal, the
/// content directories of those dictionaries, in order.
pub fn check_external_changes(summaries: &Vec<StagedFileSummary>, discard: bool) -> (r: Result<(), Vec<String>>)
    ensures
        r is Ok <==> discard || forall|i: int| 0 <= i < summaries@.len() ==> !loses_edits(#[trigger] summaries@[i]),
        r is Err ==> strings_view(r->Err_0@) == summaries@.filter(loses_edits_pred()).map_values(
            |s: StagedFileSummary| s.contents_path@,
        ),
{
    if discard {
        return Ok(());
    }
    let ghost f = loses_edits_pred();
    let mut lost: Vec<String> = Vec::new();
    let mut i: usize = 0;
    assert(summaries@.take(0).filter(f) =~= Seq::<StagedFileSummary>::empty()) by {
        reveal(Seq::filter);
    }
    while i < summaries.len()
        invariant
            i <= summaries@.len(),
            f == loses_edits_pred(),
            strings_view(lost@) == summaries@.take(i as int).filter(f).map_values(|s: StagedFileSummary| s.contents_path@),
            lost@.len() > 0 ==> exists|w: int| 0 <= w < i && loses_edits(#[trigger] summaries@[w]),
        decreases summaries.len() - i,
    {
        let ghost x = summaries@[i as int];
        let ghost t0 = summaries@.take(i as int).filter(f);
        assert(summaries@.take(i + 1) == summaries@.take(i as int).push(x));
        proof {
            summaries@.take(i as int).lemma_filter_push(x, f);
        }
        if summaries[i].workdir_changes_will_be_lost() {
            assert(f(x));
            assert(summaries@.take(i + 1).filter(f) == t0.push(x));
            lost.push(summaries[i].contents_path.clone());
            assert(t0.push(x).map_values(|s: StagedFileSummary| s.contents_path@) =~= t0.map_values(
                |s: StagedFileSummary| s.contents_path@,
            ).push(x.contents_path@));
            assert(strings_view(lost@) =~= summaries@.take(i + 1).filter(f).map_values(|s: StagedFileSummary| s.contents_path@));
        } else {
            assert(!f(x));
            assert(summaries@.take(i + 1).filter(f) == t0);
        }
        i = i + 1;
    }
    assert(summaries@.take(summaries@.len() as int) == summaries@);
    assert(summaries@.filter(f).len() == lost@.len());
    if lost.len() == 0 {
        proof {
            assert forall|i: int| 0 <= i < summaries@.len() implies !loses_edits(#[trigger] summaries@[i]) by {
                if loses_edits(summaries@[i]) {
                    assert(f(summaries@[i]));
                    assert(summaries@.contains(summaries@[i]));
                    summaries@.lemma_filter_contains_rev(f, summaries@[i]);
                }
            }
        }
        Ok(())
    } else {
        proof {
            let w = choose|w: int| 0 <= w < summaries@.len() && loses_edits(#[trigger] summaries@[w]);
        }
        Err(lost)
    }
}

} // verus!
