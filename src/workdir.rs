//! The workdir change detector and the staged-change lister: both read the
//! status of the files under a managed root and never change anything.

use vstd::prelude::*;
use vstd::utf8::is_ascii_chars;
use crate::clob::{Clob, ClobV, ClobDiff, ClobDiffV, ClobValidationIssue, ClobValidationIssueV, diffs_view};
use crate::diff::{StatusEntry, StatusEntryV, ends_txt, entries_view, copy_bytes};

verus! {

/// What an entry's working-tree status says about edits made outside the
/// pipeline. Only text files count; a path that is not ASCII is reported as
/// invalid and nothing else is said of it.
pub open spec fn workdir_issue(e: StatusEntryV) -> Option<ClobValidationIssueV> {
    if !ends_txt(e.bytes) {
        None
    } else if e.path is None || !is_ascii_chars(e.path->Some_0) {
        Some(ClobValidationIssueV::InvalidPath(e.bytes))
    } else if e.flags.wt_new {
        Some(ClobValidationIssueV::AddedInWorkdir(e.path->Some_0))
    } else if e.flags.wt_modified || e.flags.wt_typechange {
        Some(ClobValidationIssueV::UpdatedInWorkdir(e.path->Some_0))
    } else if e.flags.wt_deleted || e.flags.wt_renamed {
        Some(ClobValidationIssueV::DeletedInWorkdir(e.path->Some_0))
    } else {
        None
    }
}

/// What an entry's index status says about staged changes. Only text files
/// with an ASCII path count; a staged change carries no content.
pub open spec fn staged_change(e: StatusEntryV) -> Option<ClobDiffV> {
    if !ends_txt(e.bytes) || e.path is None || !is_ascii_chars(e.path->Some_0) {
        None
    } else if e.flags.index_new {
        Some(ClobDiffV::Add(ClobV { path: e.path->Some_0, content: Seq::empty() }))
    } else if e.flags.index_modified || e.flags.index_typechange {
        Some(ClobDiffV::Update(ClobV { path: e.path->Some_0, content: Seq::empty() }))
    } else if e.flags.index_deleted || e.flags.index_renamed {
        Some(ClobDiffV::Delete(e.path->Some_0))
    } else {
        None
    }
}

/// The values that are present, in order.
pub open spec fn present<A>(s: Seq<Option<A>>) -> Seq<A>
    decreases s.len(),
{
    if s.len() == 0 {
        Seq::empty()
    } else {
        match s.last() {
            Some(x) => present(s.drop_last()).push(x),
            None => present(s.drop_last()),
        }
    }
}

pub open spec fn validation_issues_view(v: Seq<ClobValidationIssue>) -> Seq<ClobValidationIssueV> {
    v.map_values(|i: ClobValidationIssue| i@)
}

fn ends_txt_bytes(b: &Vec<u8>) -> (r: bool)
    ensures
        r == ends_txt(b@),
{
    let n = b.len();
    if n < 4 {
        return false;
    }
    let r = b[n - 4] == 46u8 && b[n - 3] == 116u8 && b[n - 2] == 120u8 && b[n - 1] == 116u8;
    assert(r == (b@.subrange(n - 4, n as int) =~= crate::diff::txt_suffix()));
    r
}

/// Edits made outside the pipeline to the text files under a managed root,
/// from the working-tree status of those files.
pub fn validate_clobs_in_workdir(entries: &Vec<StatusEntry>) -> (r: Vec<ClobValidationIssue>)
    ensures
        validation_issues_view(r@) == present(entries_view(entries@).map_values(
            |e: StatusEntryV| workdir_issue(e),
        )),
{
    let ghost es = entries_view(entries@);
    let ghost all = es.map_values(|e: StatusEntryV| workdir_issue(e));
    let mut out: Vec<ClobValidationIssue> = Vec::new();
    let mut i: usize = 0;
    assert(all.take(0) =~= Seq::<Option<ClobValidationIssueV>>::empty());
    while i < entries.len()
        invariant
            es == entries_view(entries@),
            all == es.map_values(|e: StatusEntryV| workdir_issue(e)),
            i <= entries@.len(),
            validation_issues_view(out@) == present(all.take(i as int)),
        decreases entries.len() - i,
    {
        let e = &entries[i];
        assert(all.take(i + 1).drop_last() == all.take(i as int));
        assert(all.take(i + 1).last() == workdir_issue(e@));
        let ghost before = validation_issues_view(out@);
        if ends_txt_bytes(&e.path_bytes) {
            let ascii_path = match &e.path {
                Some(p) => p.is_ascii(),
                None => false,
            };
            if !ascii_path {
                out.push(ClobValidationIssue::InvalidPath { path: copy_bytes(&e.path_bytes) });
            } else {
                let p = match &e.path {
                    Some(p) => p.clone(),
                    None => String::new(),
                };
                if e.flags.wt_new {
                    out.push(ClobValidationIssue::AddedInWorkdir { path: p });
                } else if e.flags.wt_modified || e.flags.wt_typechange {
                    out.push(ClobValidationIssue::UpdatedInWorkdir { path: p });
                } else if e.flags.wt_deleted || e.flags.wt_renamed {
                    out.push(ClobValidationIssue::DeletedInWorkdir { path: p });
                }
            }
        }
        assert(validation_issues_view(out@) =~= present(all.take(i + 1)));
        i = i + 1;
    }
    assert(all.take(entries@.len() as int) == all);
    out
}

/// The changes already staged for the text files under a managed root, from
/// the index status of those files (files with a path that is not ASCII are
/// left out).
pub fn get_staged_clobs(entries: &Vec<StatusEntry>) -> (r: Vec<ClobDiff>)
    ensures
        diffs_view(r@) == present(entries_view(entries@).map_values(|e: StatusEntryV| staged_change(e))),
{
    let ghost es = entries_view(entries@);
    let ghost all = es.map_values(|e: StatusEntryV| staged_change(e));
    let mut out: Vec<ClobDiff> = Vec::new();
    let mut i: usize = 0;
    assert(all.take(0) =~= Seq::<Option<ClobDiffV>>::empty());
    while i < entries.len()
        invariant
            es == entries_view(entries@),
            all == es.map_values(|e: StatusEntryV| staged_change(e)),
            i <= entries@.len(),
            diffs_view(out@) == present(all.take(i as int)),
        decreases entries.len() - i,
    {
        let e = &entries[i];
        assert(all.take(i + 1).drop_last() == all.take(i as int));
        assert(all.take(i + 1).last() == staged_change(e@));
        if ends_txt_bytes(&e.path_bytes) {
            match &e.path {
                Some(p) => {
                    if p.is_ascii() {
                        if e.flags.index_new {
                            out.push(ClobDiff::Add { clob: Clob { path: p.clone(), content: String::new() } });
                        } else if e.flags.index_modified || e.flags.index_typechange {
                            out.push(ClobDiff::Update { clob: Clob { path: p.clone(), content: String::new() } });
                        } else if e.flags.index_deleted || e.flags.index_renamed {
                            out.push(ClobDiff::Delete { path: p.clone() });
                        }
                    }
                },
                None => {},
            }
        }
        assert(diffs_view(out@) =~= present(all.take(i + 1)));
        i = i + 1;
    }
    assert(all.take(entries@.len() as int) == all);
    out
}

} // verus!
