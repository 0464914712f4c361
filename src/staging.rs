//! The staging coordinator's decisions: what to write and remove for a
//! change-set, which directories to try to clean up afterwards, and whether
//! staging may overwrite edits made outside the pipeline.

use vstd::prelude::*;
use crate::clob::{ClobDiff, ClobDiffV, diffs_view};
use crate::text::{chars_of, string_of_range, strings_view};

verus! {

/// One filesystem step of staging, as the model sees it.
pub enum StagingActionV {
    Write(Seq<char>, Seq<char>),
    Remove(Seq<char>),
}

/// One filesystem step of staging: write an object's text at its path (its
/// directories created first) and register the path in the index; or remove
/// the file at a path and its index entry.
#[derive(Debug, PartialEq, Eq)]
pub enum StagingAction {
    Write { path: String, content: String },
    Remove { path: String },
}

impl View for StagingAction {
    type V = StagingActionV;

    open spec fn view(&self) -> StagingActionV {
        match self {
            StagingAction::Write { path, content } => StagingActionV::Write(path@, content@),
            StagingAction::Remove { path } => StagingActionV::Remove(path@),
        }
    }
}

pub open spec fn actions_view(v: Seq<StagingAction>) -> Seq<StagingActionV> {
    v.map_values(|a: StagingAction| a@)
}

/// The step a change calls for.
pub open spec fn action_for(d: ClobDiffV) -> StagingActionV {
    match d {
        ClobDiffV::Add(c) => StagingActionV::Write(c.path, c.content),
        ClobDiffV::Update(c) => StagingActionV::Write(c.path, c.content),
        ClobDiffV::Delete(p) => StagingActionV::Remove(p),
    }
}

/// The steps that apply a change-set, one per change, in order.
pub fn staging_plan(diffs: &Vec<ClobDiff>) -> (r: Vec<StagingAction>)
    ensures
        actions_view(r@) == diffs_view(diffs@).map_values(|d: ClobDiffV| action_for(d)),
{
    let mut out: Vec<StagingAction> = Vec::new();
    let mut i: usize = 0;
    while i < diffs.len()
        invariant
            i <= diffs@.len(),
            actions_view(out@) == diffs_view(diffs@).take(i as int).map_values(
                |d: ClobDiffV| action_for(d),
            ),
        decreases diffs.len() - i,
    {
        let ghost before = actions_view(out@);
        let a = match &diffs[i] {
            ClobDiff::Add { clob } | ClobDiff::Update { clob } => StagingAction::Write {
                path: clob.path.clone(),
                content: clob.content.clone(),
            },
            ClobDiff::Delete { path } => StagingAction::Remove { path: path.clone() },
        };
        assert(a@ == action_for(diffs@[i as int]@));
        let ghost av = a@;
        out.push(a);
        assert(actions_view(out@) =~= before.push(av));
        assert(diffs_view(diffs@).take(i + 1) == diffs_view(diffs@).take(i as int).push(
            diffs@[i as int]@,
        ));
        assert(actions_view(out@) =~= diffs_view(diffs@).take(i + 1).map_values(
            |d: ClobDiffV| action_for(d),
        ));
        i = i + 1;
    }
    assert(diffs_view(diffs@).take(diffs@.len() as int) == diffs_view(diffs@));
    out
}

/// Index of the last `/` in `p` before `j`, if any.
pub open spec fn last_slash(p: Seq<char>, j: int) -> Option<int>
    decreases j,
{
    if j <= 0 {
        None
    } else if p[j - 1] == '/' {
        Some(j - 1)
    } else {
        last_slash(p, j - 1)
    }
}

/// The directory that holds `p`: everything before its last `/` (the root,
/// written as the empty path, when it has none); the root has no parent.
pub open spec fn parent_of(p: Seq<char>) -> Option<Seq<char>> {
    if p.len() == 0 {
        None
    } else {
        match last_slash(p, p.len() as int) {
            Some(k) => Some(p.subrange(0, k)),
            None => Some(Seq::empty()),
        }
    }
}

/// The directory that holds a path (see `parent_of`).
pub fn parent_dir(path: &str) -> (r: Option<String>)
    ensures
        match r {
            Some(s) => parent_of(path@) == Some(s@),
            None => parent_of(path@) is None,
        },
{
    let v = chars_of(path);
    if v.len() == 0 {
        return None;
    }
    let mut j: usize = v.len();
    while j > 0 && v[j - 1] != '/'
        invariant
            j <= v@.len(),
            last_slash(v@, v@.len() as int) == last_slash(v@, j as int),
        decreases j,
    {
        j = j - 1;
    }
    if j == 0 {
        Some(String::new())
    } else {
        Some(string_of_range(&v, 0, j - 1))
    }
}

/// The distinct parent directories of the given paths, leaving out the root
/// (a path with no parent). Deleting files
/// starts the clean-up with the parents of the deleted paths; each
/// directory removed then puts its own parent up for removal.
pub fn cleanup_candidates(paths: &Vec<String>) -> (r: Vec<String>)
    ensures
        forall|x: Seq<char>| strings_view(r@).contains(x) <==> exists|i: int|
            0 <= i < paths@.len() && parent_of(#[trigger] paths@[i]@) == Some(x) && parent_of(x) is Some,
        strings_view(r@).no_duplicates(),
{
    let mut out: Vec<String> = Vec::new();
    let mut i: usize = 0;
    while i < paths.len()
        invariant
            i <= paths@.len(),
            forall|x: Seq<char>| strings_view(out@).contains(x) <==> exists|k: int|
                0 <= k < i && parent_of(#[trigger] paths@[k]@) == Some(x) && parent_of(x) is Some,
            strings_view(out@).no_duplicates(),
        decreases paths.len() - i,
    {
        let ghost start = strings_view(out@);
        match parent_dir(paths[i].as_str()) {
            Some(q) => {
                let removable = match parent_dir(q.as_str()) {
                    Some(_) => true,
                    None => false,
                };
                assert(removable <==> parent_of(q@) is Some);
                let mut seen = false;
                let mut j: usize = 0;
                while j < out.len()
                    invariant
                        j <= out@.len(),
                        seen <==> strings_view(out@).take(j as int).contains(q@),
                    decreases out.len() - j,
                {
                    assert(strings_view(out@).take(j + 1) == strings_view(out@).take(j as int).push(out@[j as int]@));
                    proof {
                        lemma_contains_push(strings_view(out@).take(j as int), out@[j as int]@, q@);
                    }
                    if out[j] == q {
                        seen = true;
                    }
                    j = j + 1;
                }
                assert(strings_view(out@).take(out@.len() as int) == strings_view(out@));
                if removable && !seen {
                    out.push(q);
                    assert(strings_view(out@) == start.push(q@));
                    proof {
                        assert forall|x: Seq<char>| strings_view(out@).contains(x) <==> start.contains(x) || x == q@ by {
                            lemma_contains_push(start, q@, x);
                        }
                        assert(strings_view(out@).no_duplicates());
                    }
                }
                assert(removable && !seen ==> strings_view(out@) == start.push(q@));
                assert(!(removable && !seen) ==> strings_view(out@) == start);
                assert forall|x: Seq<char>| strings_view(out@).contains(x) <==> exists|k: int|
                    0 <= k < i + 1 && parent_of(#[trigger] paths@[k]@) == Some(x) && parent_of(x) is Some by {
                    lemma_contains_push(start, q@, x);
                    if x == q@ {
                        assert(parent_of(paths@[i as int]@) == Some(x));
                    } else {
                        if exists|k: int| 0 <= k < i + 1 && parent_of(#[trigger] paths@[k]@) == Some(x) && parent_of(x) is Some {
                            let k = choose|k: int| 0 <= k < i + 1 && parent_of(#[trigger] paths@[k]@) == Some(x) && parent_of(x) is Some;
                            assert(k != i);
                        }
                    }
                }
            },
            None => {
                assert forall|x: Seq<char>| strings_view(out@).contains(x) <==> exists|k: int|
                    0 <= k < i + 1 && parent_of(#[trigger] paths@[k]@) == Some(x) && parent_of(x) is Some by {
                    if exists|k: int| 0 <= k < i + 1 && parent_of(#[trigger] paths@[k]@) == Some(x) && parent_of(x) is Some {
                        let k = choose|k: int| 0 <= k < i + 1 && parent_of(#[trigger] paths@[k]@) == Some(x) && parent_of(x) is Some;
                        assert(k != i);
                    }
                }
            },
        }
        i = i + 1;
    }
    out
}


proof fn lemma_contains_push(s: Seq<Seq<char>>, x: Seq<char>, y: Seq<char>)
    ensures
        s.push(x).contains(y) <==> s.contains(y) || x == y,
{
    if s.contains(y) {
        let k = choose|k: int| 0 <= k < s.len() && s[k] == y;
        assert(s.push(x)[k] == y);
    }
    if x == y {
        assert(s.push(x)[s.len() as int] == y);
    }
    if s.push(x).contains(y) && x != y {
        let k = choose|k: int| 0 <= k < s.push(x).len() && s.push(x)[k] == y;
        assert(s[k] == y);
    }
}

} // verus!
