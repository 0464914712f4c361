//! Structural diagnostics found while splitting a dictionary.

use vstd::prelude::*;
use vstd::multiset::Multiset;
use crate::scanner::{Line, LineV};

verus! {

/// A diagnostic as the model sees it.
pub enum IssueV {
    LineBeforeFirstRecord(LineV),
    UntaggedLine(LineV),
    MissingRecordLabel(LineV),
    MissingID(LineV),
    InvalidID(LineV, LineV),
    ExtraneousID(LineV, LineV),
    AmbiguousID(LineV, LineV),
    MissingDictionaryHeader(int),
}

/// The source line a diagnostic points at.
pub open spec fn issue_line(i: IssueV) -> int {
    match i {
        IssueV::LineBeforeFirstRecord(l) => l.line,
        IssueV::UntaggedLine(l) => l.line,
        IssueV::MissingRecordLabel(l) => l.line,
        IssueV::MissingID(l) => l.line,
        IssueV::InvalidID(_, l) => l.line,
        IssueV::ExtraneousID(_, l) => l.line,
        IssueV::AmbiguousID(_, l) => l.line,
        IssueV::MissingDictionaryHeader(n) => n,
    }
}

/// A problem in a dictionary's contents.
#[allow(inconsistent_fields)]
#[derive(Debug, PartialEq, Eq)]
pub enum ToolboxFileIssue {
    /// Content occurs before the first record.
    LineBeforeFirstRecord { line: Line },
    /// An untagged line inside a record.
    UntaggedLine { line: Line },
    /// A record without a label.
    MissingRecordLabel { line: Line },
    /// A record without an id.
    MissingID { line: Line },
    /// An id that does not match the id pattern.
    InvalidID { record: Line, line: Line },
    /// A second id line in a record.
    ExtraneousID { record: Line, line: Line },
    /// An id that more than one record carries.
    AmbiguousID { record: Line, line: Line },
    /// The dictionary header is missing; the offending line.
    MissingDictionaryHeader { line: usize },
}

impl View for ToolboxFileIssue {
    type V = IssueV;

    open spec fn view(&self) -> IssueV {
        match self {
            ToolboxFileIssue::LineBeforeFirstRecord { line } => IssueV::LineBeforeFirstRecord(line@),
            ToolboxFileIssue::UntaggedLine { line } => IssueV::UntaggedLine(line@),
            ToolboxFileIssue::MissingRecordLabel { line } => IssueV::MissingRecordLabel(line@),
            ToolboxFileIssue::MissingID { line } => IssueV::MissingID(line@),
            ToolboxFileIssue::InvalidID { record, line } => IssueV::InvalidID(record@, line@),
            ToolboxFileIssue::ExtraneousID { record, line } => IssueV::ExtraneousID(record@, line@),
            ToolboxFileIssue::AmbiguousID { record, line } => IssueV::AmbiguousID(record@, line@),
            ToolboxFileIssue::MissingDictionaryHeader { line } => IssueV::MissingDictionaryHeader(
                *line as int,
            ),
        }
    }
}

impl ToolboxFileIssue {
    /// The source line this diagnostic points at.
    pub fn line(&self) -> (r: usize)
        ensures
            r as int == issue_line(self@),
    {
        match self {
            ToolboxFileIssue::LineBeforeFirstRecord { line }
            | ToolboxFileIssue::UntaggedLine { line }
            | ToolboxFileIssue::MissingRecordLabel { line }
            | ToolboxFileIssue::MissingID { line }
            | ToolboxFileIssue::InvalidID { record: _, line }
            | ToolboxFileIssue::ExtraneousID { record: _, line }
            | ToolboxFileIssue::AmbiguousID { record: _, line } => line.line,
            ToolboxFileIssue::MissingDictionaryHeader { line } => *line,
        }
    }

    /// Whether this diagnostic reports a missing dictionary header.
    pub fn is_missing_header(&self) -> (r: bool)
        ensures
            r == (self@ is MissingDictionaryHeader),
    {
        match self {
            ToolboxFileIssue::MissingDictionaryHeader { line: _ } => true,
            _ => false,
        }
    }
}

/// Whether a sequence of diagnostics is ordered by source line.
pub open spec fn sorted_by_line(s: Seq<IssueV>) -> bool {
    forall|i: int, j: int| 0 <= i < j < s.len() ==> issue_line(s[i]) <= issue_line(s[j])
}

/// Orders diagnostics by source line.
pub fn sort_issues(v: Vec<ToolboxFileIssue>) -> (r: Vec<ToolboxFileIssue>)
    ensures
        issues_view(r@).to_multiset() == issues_view(v@).to_multiset(),
        sorted_by_line(issues_view(r@)),
{
    broadcast use vstd::multiset::group_multiset_axioms;
    broadcast use vstd::seq_lib::to_multiset_insert, vstd::seq_lib::to_multiset_remove;
    broadcast use vstd::seq_lib::group_to_multiset_ensures;

    let mut src = v;
    let mut out: Vec<ToolboxFileIssue> = Vec::new();
    let ghost orig = issues_view(src@);
    assert(issues_view(out@).to_multiset() =~= Multiset::empty());
    while src.len() > 0
        invariant
            issues_view(out@).to_multiset().add(issues_view(src@).to_multiset())
                == orig.to_multiset(),
            sorted_by_line(issues_view(out@)),
        decreases src.len(),
    {
        let ghost src_before = issues_view(src@);
        let item = src.remove(0);
        assert(issues_view(src@) =~= src_before.remove(0));
        let key = item.line();
        let mut k: usize = out.len();
        while k > 0 && out[k - 1].line() > key
            invariant
                k <= out@.len(),
                forall|x: int| k <= x < out@.len() ==> issue_line(#[trigger] out@[x]@) > key,
            decreases k,
        {
            k = k - 1;
        }
        let ghost before = issues_view(out@);
        out.insert(k, item);
        proof {
            let after = issues_view(out@);
            assert(after =~= before.insert(k as int, item@));
            assert(src_before[0] == item@);
            assert(src_before.contains(item@));
            vstd::seq_lib::to_multiset_contains(src_before, item@);
            vstd::seq_lib::to_multiset_remove(src_before, 0);
            assert(src_before.to_multiset().count(item@) > 0);
            assert(issues_view(src@).to_multiset() == src_before.to_multiset().remove(item@));
            vstd::seq_lib::to_multiset_insert(before, k as int, item@);
            assert(after.to_multiset() == before.to_multiset().insert(item@));
            assert(after.to_multiset().add(issues_view(src@).to_multiset()) =~= orig.to_multiset());
            assert forall|i: int, j: int| 0 <= i < j < after.len() implies issue_line(after[i])
                <= issue_line(after[j]) by {
                if j < k {
                    assert(after[i] == before[i] && after[j] == before[j]);
                } else if j == k {
                    assert(after[i] == before[i]);
                    assert(issue_line(before[i]) <= issue_line(before[k - 1]));
                } else if i < k {
                    assert(after[i] == before[i] && after[j] == before[j - 1]);
                } else if i == k {
                    assert(after[j] == before[j - 1]);
                } else {
                    assert(after[i] == before[i - 1] && after[j] == before[j - 1]);
                }
            }
        }
    }
    assert(issues_view(src@) =~= Seq::<IssueV>::empty());
    out
}

/// The model of a list of diagnostics.
pub open spec fn issues_view(v: Seq<ToolboxFileIssue>) -> Seq<IssueV> {
    v.map_values(|i: ToolboxFileIssue| i@)
}

} // verus!
