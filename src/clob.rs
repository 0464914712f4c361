//! Content objects and the changes that bring the stored tree in line with them.

use vstd::prelude::*;
use vstd::utf8::is_ascii_chars;

verus! {

/// A content object as the model sees it: its path and its text.
pub struct ClobV {
    pub path: Seq<char>,
    pub content: Seq<char>,
}

/// A content object: one decomposed unit of a dictionary, and where it is stored.
#[derive(Debug, PartialEq, Eq)]
pub struct Clob {
    /// The path where this object is stored.
    pub path: String,
    /// The object's text.
    pub content: String,
}

impl View for Clob {
    type V = ClobV;

    open spec fn view(&self) -> ClobV {
        ClobV { path: self.path@, content: self.content@ }
    }
}

/// The model of a list of content objects.
pub open spec fn clobs_view(v: Seq<Clob>) -> Seq<ClobV> {
    v.map_values(|c: Clob| c@)
}

impl Clob {
    /// The object itself, whose path is ASCII as every object's path is.
    pub fn validated(self) -> (r: Clob)
        requires
            is_ascii_chars(self.path@),
        ensures
            r@ == self@,
    {
        self
    }

    /// A copy of this object.
    pub fn duplicate(&self) -> (r: Clob)
        ensures
            r@ == self@,
    {
        Clob { path: self.path.clone(), content: self.content.clone() }
    }
}

/// A change to the stored tree, as the model sees it.
pub enum ClobDiffV {
    Add(ClobV),
    Update(ClobV),
    Delete(Seq<char>),
}

/// A change that brings the stored tree in line with the content objects.
#[derive(Debug, PartialEq, Eq)]
pub enum ClobDiff {
    Add { clob: Clob },
    Update { clob: Clob },
    Delete { path: String },
}

impl View for ClobDiff {
    type V = ClobDiffV;

    open spec fn view(&self) -> ClobDiffV {
        match self {
            ClobDiff::Add { clob } => ClobDiffV::Add(clob@),
            ClobDiff::Update { clob } => ClobDiffV::Update(clob@),
            ClobDiff::Delete { path } => ClobDiffV::Delete(path@),
        }
    }
}

/// The model of a list of changes.
pub open spec fn diffs_view(v: Seq<ClobDiff>) -> Seq<ClobDiffV> {
    v.map_values(|d: ClobDiff| d@)
}

/// The path a change applies to.
pub open spec fn diff_path(d: ClobDiffV) -> Seq<char> {
    match d {
        ClobDiffV::Add(c) => c.path,
        ClobDiffV::Update(c) => c.path,
        ClobDiffV::Delete(p) => p,
    }
}

/// The last `/`-separated component of a path.
pub open spec fn file_name(p: Seq<char>) -> Seq<char>
    decreases p.len(),
{
    if p.len() == 0 {
        p
    } else if p.last() == '/' {
        Seq::empty()
    } else {
        file_name(p.drop_last()).push(p.last())
    }
}

impl ClobDiff {
    /// The change's marker in a listing: `added   `, `modified` or `deleted `.
    pub fn diff_marker(&self) -> (r: &'static str)
        ensures
            r@ == match self@ {
                ClobDiffV::Add(_) => "added   "@,
                ClobDiffV::Update(_) => "modified"@,
                ClobDiffV::Delete(_) => "deleted "@,
            },
    {
        match self {
            ClobDiff::Add { clob: _ } => "added   ",
            ClobDiff::Update { clob: _ } => "modified",
            ClobDiff::Delete { path: _ } => "deleted ",
        }
    }

    /// The path the change applies to.
    pub fn path(&self) -> (r: &String)
        ensures
            r@ == diff_path(self@),
    {
        match self {
            ClobDiff::Add { clob } | ClobDiff::Update { clob } => &clob.path,
            ClobDiff::Delete { path } => path,
        }
    }

    /// The last component of the path the change applies to.
    pub fn filename(&self) -> (r: String)
        ensures
            r@ == file_name(diff_path(self@)),
    {
        let p = crate::text::chars_of(self.path().as_str());
        let mut start: usize = p.len();
        assert(p@.subrange(0, start as int) == p@);
        assert(p@.subrange(start as int, p@.len() as int) == Seq::<char>::empty());
        assert(file_name(p@) + Seq::<char>::empty() == file_name(p@));
        while start > 0 && p[start - 1] != '/'
            invariant
                start <= p@.len(),
                file_name(p@) == file_name(p@.subrange(0, start as int)) + p@.subrange(
                    start as int,
                    p@.len() as int,
                ),
            decreases start,
        {
            let ghost s = p@.subrange(0, start as int);
            assert(s.drop_last() == p@.subrange(0, start - 1));
            assert(p@.subrange(start - 1, p@.len() as int) == seq![p@[start - 1]] + p@.subrange(
                start as int,
                p@.len() as int,
            ));
            start = start - 1;
        }
        assert(file_name(p@.subrange(0, start as int)) == Seq::<char>::empty());
        crate::text::string_of_range(&p, start, p.len())
    }

    /// A copy of this change.
    pub fn duplicate(&self) -> (r: ClobDiff)
        ensures
            r@ == self@,
    {
        match self {
            ClobDiff::Add { clob } => ClobDiff::Add { clob: clob.duplicate() },
            ClobDiff::Update { clob } => ClobDiff::Update { clob: clob.duplicate() },
            ClobDiff::Delete { path } => ClobDiff::Delete { path: path.clone() },
        }
    }
}

/// An edit to the stored tree made outside the pipeline, as the model sees it.
pub enum ClobValidationIssueV {
    AddedInWorkdir(Seq<char>),
    DeletedInWorkdir(Seq<char>),
    UpdatedInWorkdir(Seq<char>),
    InvalidPath(Seq<u8>),
}

/// An edit to the stored tree made outside the pipeline.
#[allow(inconsistent_fields)]
#[derive(Debug, PartialEq, Eq)]
pub enum ClobValidationIssue {
    AddedInWorkdir { path: String },
    DeletedInWorkdir { path: String },
    UpdatedInWorkdir { path: String },
    /// A path whose bytes are not ASCII.
    InvalidPath { path: Vec<u8> },
}

impl View for ClobValidationIssue {
    type V = ClobValidationIssueV;

    open spec fn view(&self) -> ClobValidationIssueV {
        match self {
            ClobValidationIssue::AddedInWorkdir { path } => ClobValidationIssueV::AddedInWorkdir(path@),
            ClobValidationIssue::DeletedInWorkdir { path } => ClobValidationIssueV::DeletedInWorkdir(
                path@,
            ),
            ClobValidationIssue::UpdatedInWorkdir { path } => ClobValidationIssueV::UpdatedInWorkdir(
                path@,
            ),
            ClobValidationIssue::InvalidPath { path } => ClobValidationIssueV::InvalidPath(path@),
        }
    }
}

/// The path an outside edit concerns; empty for an invalid path.
pub open spec fn issue_path(i: ClobValidationIssueV) -> Seq<char> {
    match i {
        ClobValidationIssueV::AddedInWorkdir(p) => p,
        ClobValidationIssueV::DeletedInWorkdir(p) => p,
        ClobValidationIssueV::UpdatedInWorkdir(p) => p,
        ClobValidationIssueV::InvalidPath(_) => Seq::empty(),
    }
}

impl ClobValidationIssue {
    /// The path the edit concerns (empty for an invalid path).
    pub fn path(&self) -> (r: String)
        ensures
            r@ == issue_path(self@),
    {
        match self {
            ClobValidationIssue::AddedInWorkdir { path }
            | ClobValidationIssue::DeletedInWorkdir { path }
            | ClobValidationIssue::UpdatedInWorkdir { path } => path.clone(),
            _ => String::new(),
        }
    }
}

/// The number of additions in a list of changes.
pub open spec fn count_adds(d: Seq<ClobDiffV>) -> int
    decreases d.len(),
{
    if d.len() == 0 {
        0
    } else {
        count_adds(d.drop_last()) + if d.last() is Add { 1int } else { 0 }
    }
}

/// The number of updates in a list of changes.
pub open spec fn count_updates(d: Seq<ClobDiffV>) -> int
    decreases d.len(),
{
    if d.len() == 0 {
        0
    } else {
        count_updates(d.drop_last()) + if d.last() is Update { 1int } else { 0 }
    }
}

/// The number of deletions in a list of changes.
pub open spec fn count_deletes(d: Seq<ClobDiffV>) -> int
    decreases d.len(),
{
    if d.len() == 0 {
        0
    } else {
        count_deletes(d.drop_last()) + if d.last() is Delete { 1int } else { 0 }
    }
}

/// A summary of a list of changes.
#[derive(Debug, PartialEq, Eq)]
pub struct DiffStats {
    pub added: usize,
    pub changed: usize,
    pub deleted: usize,
}

impl DiffStats {
    /// Counts the additions, updates and deletions in a list of changes.
    pub fn count(diff: &[ClobDiff]) -> (r: DiffStats)
        ensures
            r.added == count_adds(diffs_view(diff@)),
            r.changed == count_updates(diffs_view(diff@)),
            r.deleted == count_deletes(diffs_view(diff@)),
    {
        let mut added: usize = 0;
        let mut changed: usize = 0;
        let mut deleted: usize = 0;
        let mut i: usize = 0;
        while i < diff.len()
            invariant
                i <= diff@.len(),
                added == count_adds(diffs_view(diff@.subrange(0, i as int))),
                changed == count_updates(diffs_view(diff@.subrange(0, i as int))),
                deleted == count_deletes(diffs_view(diff@.subrange(0, i as int))),
                added + changed + deleted == i,
            decreases diff.len() - i,
        {
            let ghost before = diffs_view(diff@.subrange(0, i as int));
            assert(diffs_view(diff@.subrange(0, i + 1)) == before.push(diff@[i as int]@));
            assert(diffs_view(diff@.subrange(0, i + 1)).drop_last() == before);
            match &diff[i] {
                ClobDiff::Add { clob: _ } => {
                    added = added + 1;
                },
                ClobDiff::Update { clob: _ } => {
                    changed = changed + 1;
                },
                ClobDiff::Delete { path: _ } => {
                    deleted = deleted + 1;
                },
            }
            i = i + 1;
        }
        assert(diff@.subrange(0, diff@.len() as int) == diff@);
        DiffStats { added, changed, deleted }
    }

    /// Whether the summary counts no change at all.
    pub fn no_changes(&self) -> (r: bool)
        ensures
            r == (self.added == 0 && self.changed == 0 && self.deleted == 0),
    {
        self.added == 0 && self.changed == 0 && self.deleted == 0
    }
}

} // verus!
