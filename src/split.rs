//! What both splitters share: the lines before the first record, joining
//! record bodies into content objects, and the path check.

use vstd::prelude::*;
use vstd::utf8::is_ascii_chars;
use crate::scanner::{LineV, TokenV, Token, Line};
use crate::issue::{IssueV, ToolboxFileIssue};
use crate::clob::{Clob, ClobV, clobs_view};
use crate::text::{blank, join_lines, strings_view, is_blank_str, join_strings, push_str_chars, string_of};
use crate::groups::indices_of;

verus! {

/// Handling an item that comes before the first record: the record's start
/// ends this stage; a tagged or untagged line is kept as an orphan (with a
/// diagnostic); a blank line is kept only right after a non-blank orphan.
/// Returns whether the first record has started, the orphans and the diagnostics.
pub open spec fn before_records(
    orphans: Seq<Seq<char>>,
    issues: Seq<IssueV>,
    line: LineV,
    tok: TokenV,
) -> (bool, Seq<Seq<char>>, Seq<IssueV>) {
    match tok {
        TokenV::RecordBegin => (true, orphans, issues),
        TokenV::Tagged(_, _) => (
            false,
            orphans.push(line.text),
            issues.push(IssueV::LineBeforeFirstRecord(line)),
        ),
        TokenV::Untagged(_) => (
            false,
            orphans.push(line.text),
            issues.push(IssueV::LineBeforeFirstRecord(line)),
        ),
        TokenV::Blank => if orphans.len() > 0 && !blank(orphans.last()) {
            (false, orphans.push(Seq::empty()), issues)
        } else {
            (false, orphans, issues)
        },
        TokenV::RecordEnd(_) => (false, orphans, issues),
    }
}

/// Exec form of `before_records`; updates the orphans and diagnostics in place.
pub(crate) fn handle_before_records(
    orphans: &mut Vec<String>,
    issues: &mut Vec<ToolboxFileIssue>,
    line: Line,
    tok: &Token,
) -> (entered: bool)
    ensures
        (entered, strings_view(final(orphans)@), crate::issue::issues_view(final(issues)@))
            == before_records(
            strings_view(old(orphans)@),
            crate::issue::issues_view(old(issues)@),
            line@,
            tok@,
        ),
{
    match tok {
        Token::RecordBegin => true,
        Token::Tagged { tag: _, text: _ } | Token::Untagged { text: _ } => {
            orphans.push(line.text.clone());
            issues.push(ToolboxFileIssue::LineBeforeFirstRecord { line });
            assert(strings_view(orphans@) =~= strings_view(old(orphans)@).push(line@.text));
            assert(crate::issue::issues_view(issues@) =~= crate::issue::issues_view(
                old(issues)@,
            ).push(IssueV::LineBeforeFirstRecord(line@)));
            false
        },
        Token::Blank => {
            if orphans.len() > 0 && !is_blank_str(orphans[orphans.len() - 1].as_str()) {
                orphans.push(String::new());
                assert(strings_view(orphans@) =~= strings_view(old(orphans)@).push(
                    Seq::empty(),
                ));
            }
            false
        },
        Token::RecordEnd { body: _ } => false,
    }
}

/// The texts of the records filed under `k`, joined by line feeds.
pub open spec fn group_text(keys: Seq<Seq<char>>, bodies: Seq<Seq<char>>, k: Seq<char>) -> Seq<
    char,
> {
    join_lines(indices_of(keys, k).map_values(|j: usize| bodies[j as int]))
}

/// The orphaned lines joined, ending with a line feed.
pub open spec fn orphan_text(orphans: Seq<Seq<char>>) -> Seq<char> {
    let t = join_lines(orphans);
    if t.len() > 0 && t.last() == '\n' {
        t
    } else {
        t.push('\n')
    }
}

/// The object that keeps the lines before the first record, when there is
/// more than white space in them.
pub open spec fn orphan_objects(orphans: Seq<Seq<char>>) -> Seq<ClobV> {
    if blank(orphan_text(orphans)) {
        Seq::empty()
    } else {
        seq![ClobV { path: "invalid/__.txt"@, content: orphan_text(orphans) }]
    }
}

/// Whether every object's path is ASCII.
pub open spec fn all_ascii_paths(objs: Seq<ClobV>) -> bool {
    forall|i: int| 0 <= i < objs.len() ==> is_ascii_chars(#[trigger] objs[i].path)
}

/// The objects for the lines before the first record (none or one).
pub(crate) fn orphan_clobs(orphans: &Vec<String>) -> (r: Vec<Clob>)
    ensures
        clobs_view(r@) == orphan_objects(strings_view(orphans@)),
        all_ascii_paths(clobs_view(r@)),
{
    proof {
        reveal_strlit("invalid/__.txt");
    }
    let mut t = join_strings(orphans);
    if !(t.len() > 0 && t[t.len() - 1] == '\n') {
        t.push('\n');
    }
    let mut r: Vec<Clob> = Vec::new();
    let text = string_of(t.as_slice());
    if !is_blank_str(text.as_str()) {
        r.push(Clob { path: String::from_str("invalid/__.txt"), content: text });
        assert(clobs_view(r@) =~= orphan_objects(strings_view(orphans@)));
    } else {
        assert(clobs_view(r@) =~= orphan_objects(strings_view(orphans@)));
    }
    r
}

/// The texts at positions `idx` of `bodies`, joined by line feeds.
pub(crate) fn join_indexed(bodies: &Vec<String>, idx: &Vec<usize>) -> (r: String)
    requires
        forall|j: int| 0 <= j < idx@.len() ==> (#[trigger] idx@[j] as int) < bodies@.len(),
    ensures
        r@ == join_lines(idx@.map_values(|j: usize| strings_view(bodies@)[j as int])),
{
    let ghost parts = idx@.map_values(|j: usize| strings_view(bodies@)[j as int]);
    let mut out: Vec<char> = Vec::new();
    let mut i: usize = 0;
    while i < idx.len()
        invariant
            i <= idx@.len(),
            parts == idx@.map_values(|j: usize| strings_view(bodies@)[j as int]),
            forall|j: int| 0 <= j < idx@.len() ==> (#[trigger] idx@[j] as int) < bodies@.len(),
            out@ == join_lines(parts.take(i as int)),
        decreases idx.len() - i,
    {
        assert(parts.take(i + 1).drop_last() == parts.take(i as int));
        if i > 0 {
            out.push('\n');
        }
        let j = idx[i];
        push_str_chars(&mut out, bodies[j].as_str());
        proof {
            assert(parts[i as int] == bodies@[j as int]@);
            if i == 0 {
                assert(out@ == parts.take(1)[0]);
            }
        }
        i = i + 1;
    }
    assert(parts.take(idx@.len() as int) == parts);
    string_of(out.as_slice())
}

/// `Ok` with the objects when all their paths are ASCII; otherwise `Err`
/// with the first object whose path is not.
pub(crate) fn check_paths(clobs: Vec<Clob>) -> (r: Result<Vec<Clob>, Clob>)
    ensures
        r is Ok <==> all_ascii_paths(clobs_view(clobs@)),
        r is Ok ==> clobs_view(r->Ok_0@) == clobs_view(clobs@),
        r is Err ==> clobs_view(clobs@).contains(r->Err_0@) && !is_ascii_chars(r->Err_0@.path),
{
    let mut i: usize = 0;
    while i < clobs.len()
        invariant
            i <= clobs@.len(),
            forall|k: int| 0 <= k < i ==> is_ascii_chars(#[trigger] clobs_view(clobs@)[k].path),
        decreases clobs.len() - i,
    {
        if !clobs[i].path.is_ascii() {
            let bad = clobs[i].duplicate();
            assert(clobs_view(clobs@)[i as int] == bad@);
            assert(!is_ascii_chars(clobs_view(clobs@)[i as int].path));
            return Err(bad);
        }
        i = i + 1;
    }
    Ok(clobs)
}

} // verus!
