//! Natural ordering of paths, the reassembled dictionary text, and the
//! report of the content filter.

use vstd::prelude::*;
use crate::clob::{ClobDiff, ClobDiffV, diffs_view, diff_path, file_name};
use crate::text::{chars_of, string_of, push_str_chars, string_of_range};
use crate::shard::{trim, trim_bounds};

verus! {

pub open spec fn keyed_view(v: Seq<(String, usize)>) -> Seq<(Seq<char>, usize)> {
    v.map_values(|e: (String, usize)| (e.0@, e.1))
}

/// The entries in natural (human) order of their keys, as alphanumeric-sort
/// orders them (entries whose keys tie keep their order).
pub uninterp spec fn natural_sorted(entries: Seq<(Seq<char>, usize)>) -> Seq<(Seq<char>, usize)>;

/// Relies on alphanumeric-sort's `sort_slice_by_str_key` (a stable sort by
/// `compare_str` on the key): the order depends on the entries alone, and
/// sorting only rearranges them.
#[verifier::external_body]
fn sort_naturally(v: Vec<(String, usize)>) -> (r: Vec<(String, usize)>)
    ensures
        keyed_view(r@) == natural_sorted(keyed_view(v@)),
        keyed_view(r@).to_multiset() == keyed_view(v@).to_multiset(),
{
    let mut v = v;
    alphanumeric_sort::sort_slice_by_str_key(&mut v, |e| e.0.as_str());
    v
}

/// Rearranging entries keeps their positions below `bound`.
proof fn lemma_sorted_indices(s: Seq<(Seq<char>, usize)>, t: Seq<(Seq<char>, usize)>, bound: int)
    requires
        forall|j: int| 0 <= j < s.len() ==> (#[trigger] s[j].1 as int) < bound,
        t.to_multiset() == s.to_multiset(),
    ensures
        forall|j: int| 0 <= j < t.len() ==> (#[trigger] t[j].1 as int) < bound,
{
    assert forall|j: int| 0 <= j < t.len() implies (#[trigger] t[j].1 as int) < bound by {
        assert(t.contains(t[j]));
        vstd::seq_lib::to_multiset_contains(t, t[j]);
        vstd::seq_lib::to_multiset_contains(s, t[j]);
        let i = choose|i: int| 0 <= i < s.len() && s[i] == t[j];
        assert(s[i].1 == t[j].1);
    }
}

// ---------------------------------------------------------------------
// The reassembled dictionary
// ---------------------------------------------------------------------

/// The header line that starts a reassembled dictionary: `\_sh v3.0  864  Dictionary`.
pub open spec fn dictionary_header() -> Seq<u8> {
    seq![
        92u8, 95u8, 115u8, 104u8, 32u8, 118u8, 51u8, 46u8, 48u8, 32u8, 32u8, 56u8, 54u8, 52u8,
        32u8, 32u8, 68u8, 105u8, 99u8, 116u8, 105u8, 111u8, 110u8, 97u8, 114u8, 121u8, 10u8,
    ]
}

/// The header followed, for each stored object in order, by a line feed and
/// the object's bytes.
pub open spec fn assemble(blobs: Seq<Seq<u8>>) -> Seq<u8>
    decreases blobs.len(),
{
    if blobs.len() == 0 {
        dictionary_header()
    } else {
        assemble(blobs.drop_last()) + seq![10u8] + blobs.last()
    }
}

/// The stored objects, in natural order of their paths.
pub open spec fn in_natural_order(paths: Seq<Seq<char>>, blobs: Seq<Seq<u8>>) -> Seq<Seq<u8>> {
    natural_sorted(Seq::new(paths.len(), |i: int| (paths[i], i as usize))).map_values(
        |e: (Seq<char>, usize)| blobs[e.1 as int],
    )
}

/// The dictionary text reassembled from its stored objects: the header, then
/// every object in natural order of its path, each after a line feed.
pub fn reconstruct_content(paths: &Vec<String>, blobs: &Vec<Vec<u8>>) -> (r: Vec<u8>)
    requires
        paths@.len() == blobs@.len(),
    ensures
        r@ == assemble(in_natural_order(
            paths@.map_values(|p: String| p@),
            blobs@.map_values(|b: Vec<u8>| b@),
        )),
{
    let ghost pv = paths@.map_values(|p: String| p@);
    let ghost bv = blobs@.map_values(|b: Vec<u8>| b@);
    let mut keyed: Vec<(String, usize)> = Vec::new();
    let mut i: usize = 0;
    while i < paths.len()
        invariant
            i <= paths@.len(),
            pv == paths@.map_values(|p: String| p@),
            keyed_view(keyed@) == Seq::new(i as nat, |j: int| (pv[j], j as usize)),
        decreases paths.len() - i,
    {
        let ghost before = keyed_view(keyed@);
        let p = paths[i].clone();
        keyed.push((p, i));
        assert(keyed_view(keyed@) =~= before.push((pv[i as int], i)));
        assert(keyed_view(keyed@) =~= Seq::new((i + 1) as nat, |j: int| (pv[j], j as usize)));
        i = i + 1;
    }
    let sorted = sort_naturally(keyed);
    let ghost order = natural_sorted(Seq::new(pv.len(), |j: int| (pv[j], j as usize)));
    proof {
        lemma_sorted_indices(Seq::new(pv.len(), |j: int| (pv[j], j as usize)), keyed_view(sorted@), pv.len() as int);
    }
    let mut out: Vec<u8> = Vec::new();
    let header: Vec<u8> = vec![
        92u8, 95u8, 115u8, 104u8, 32u8, 118u8, 51u8, 46u8, 48u8, 32u8, 32u8, 56u8, 54u8, 52u8,
        32u8, 32u8, 68u8, 105u8, 99u8, 116u8, 105u8, 111u8, 110u8, 97u8, 114u8, 121u8, 10u8,
    ];
    append_bytes(&mut out, &header);
    assert(out@ == dictionary_header());
    let ghost parts = order.map_values(|e: (Seq<char>, usize)| bv[e.1 as int]);
    let mut k: usize = 0;
    assert(parts.take(0) =~= Seq::<Seq<u8>>::empty());
    while k < sorted.len()
        invariant
            k <= sorted@.len(),
            keyed_view(sorted@) == order,
            forall|j: int| 0 <= j < order.len() ==> (#[trigger] order[j].1 as int) < blobs@.len(),
            parts == order.map_values(|e: (Seq<char>, usize)| bv[e.1 as int]),
            bv == blobs@.map_values(|b: Vec<u8>| b@),
            out@ == assemble(parts.take(k as int)),
        decreases sorted.len() - k,
    {
        let idx = sorted[k].1;
        assert(order[k as int].1 == idx);
        out.push(10u8);
        append_bytes(&mut out, &blobs[idx]);
        assert(parts.take(k + 1).drop_last() == parts.take(k as int));
        assert(parts.take(k + 1).last() == blobs@[idx as int]@);
        assert(out@ =~= assemble(parts.take(k + 1)));
        k = k + 1;
    }
    assert(parts.take(sorted@.len() as int) == parts);
    out
}

fn append_bytes(out: &mut Vec<u8>, b: &Vec<u8>)
    ensures
        final(out)@ == old(out)@ + b@,
{
    let mut i: usize = 0;
    let ghost start = out@;
    while i < b.len()
        invariant
            i <= b@.len(),
            out@ == start + b@.subrange(0, i as int),
        decreases b.len() - i,
    {
        out.push(b[i]);
        assert(b@.subrange(0, i + 1) == b@.subrange(0, i as int).push(b@[i as int]));
        i = i + 1;
    }
    assert(b@.subrange(0, b@.len() as int) == b@);
}

// ---------------------------------------------------------------------
// The content filter's report
// ---------------------------------------------------------------------

/// The placeholder text that stands in the index for a managed file.
pub const MANAGED_FILE_TEXT: &'static str = "This file is managed by git-toolbox.\n\nIf you see this text, your repository is either misconfigured or has encountered\nan error during operation. Please run \"git toolbox reset\" and contact IT support\nif your issue persists.\n";

/// A change's marker in the report.
pub open spec fn marker_of(d: ClobDiffV) -> Seq<char> {
    match d {
        ClobDiffV::Add(_) => "added   "@,
        ClobDiffV::Update(_) => "modified"@,
        ClobDiffV::Delete(_) => "deleted "@,
    }
}

/// One line of the report: the change's marker, a space, its file name.
pub open spec fn report_line(d: ClobDiffV) -> Seq<char> {
    marker_of(d) + seq![' '] + file_name(diff_path(d)) + seq!['\n']
}

/// The report's lines joined.
pub open spec fn report_of(ds: Seq<ClobDiffV>) -> Seq<char>
    decreases ds.len(),
{
    if ds.len() == 0 {
        Seq::empty()
    } else {
        report_of(ds.drop_last()) + report_line(ds.last())
    }
}

/// The changes in natural order of their file names.
pub open spec fn by_file_name(ds: Seq<ClobDiffV>) -> Seq<ClobDiffV> {
    natural_sorted(Seq::new(ds.len(), |i: int| (file_name(diff_path(ds[i])), i as usize))).map_values(
        |e: (Seq<char>, usize)| ds[e.1 as int],
    )
}

/// What the content filter hands the version-control tool for a managed
/// file: one line per change (marker and file name), in natural order of the
/// file names; or the placeholder text when there is no change, so that the
/// file looks unchanged.
pub fn clean_report(changes: &Vec<ClobDiff>) -> (r: String)
    ensures
        diffs_view(changes@).len() == 0 ==> r@ == MANAGED_FILE_TEXT@,
        diffs_view(changes@).len() > 0 ==> r@ == report_of(by_file_name(diffs_view(changes@))),
{
    if changes.len() == 0 {
        return String::from_str(MANAGED_FILE_TEXT);
    }
    let ghost dv = diffs_view(changes@);
    let mut keyed: Vec<(String, usize)> = Vec::new();
    let mut i: usize = 0;
    while i < changes.len()
        invariant
            i <= changes@.len(),
            dv == diffs_view(changes@),
            keyed_view(keyed@) == Seq::new(i as nat, |j: int| (file_name(diff_path(dv[j])), j as usize)),
        decreases changes.len() - i,
    {
        let ghost before = keyed_view(keyed@);
        let name = changes[i].filename();
        keyed.push((name, i));
        assert(keyed_view(keyed@) =~= before.push((file_name(diff_path(dv[i as int])), i)));
        assert(keyed_view(keyed@) =~= Seq::new((i + 1) as nat, |j: int| (file_name(diff_path(dv[j])), j as usize)));
        i = i + 1;
    }
    let sorted = sort_naturally(keyed);
    let ghost keys = Seq::new(dv.len(), |j: int| (file_name(diff_path(dv[j])), j as usize));
    let ghost order = natural_sorted(keys);
    proof {
        lemma_sorted_indices(keys, keyed_view(sorted@), dv.len() as int);
    }
    let ghost parts = order.map_values(|e: (Seq<char>, usize)| dv[e.1 as int]);
    let mut out: Vec<char> = Vec::new();
    let mut k: usize = 0;
    assert(parts.take(0) =~= Seq::<ClobDiffV>::empty());
    while k < sorted.len()
        invariant
            k <= sorted@.len(),
            keyed_view(sorted@) == order,
            dv == diffs_view(changes@),
            forall|j: int| 0 <= j < order.len() ==> (#[trigger] order[j].1 as int) < changes@.len(),
            parts == order.map_values(|e: (Seq<char>, usize)| dv[e.1 as int]),
            out@ == report_of(parts.take(k as int)),
        decreases sorted.len() - k,
    {
        let idx = sorted[k].1;
        assert(order[k as int].1 == idx);
        let d = &changes[idx];
        push_str_chars(&mut out, d.diff_marker());
        out.push(' ');
        let name = d.filename();
        push_str_chars(&mut out, name.as_str());
        out.push('\n');
        assert(parts.take(k + 1).drop_last() == parts.take(k as int));
        assert(parts.take(k + 1).last() == dv[idx as int]);
        assert(out@ =~= report_of(parts.take(k + 1)));
        k = k + 1;
    }
    assert(parts.take(sorted@.len() as int) == parts);
    string_of(out.as_slice())
}


/// The changes in natural order of their paths.
pub open spec fn by_path(ds: Seq<ClobDiffV>) -> Seq<ClobDiffV> {
    natural_sorted(Seq::new(ds.len(), |i: int| (diff_path(ds[i]), i as usize))).map_values(
        |e: (Seq<char>, usize)| ds[e.1 as int],
    )
}

/// The changes in natural order of their paths, for listing.
pub fn sort_changes_by_path(changes: &Vec<ClobDiff>) -> (r: Vec<ClobDiff>)
    ensures
        diffs_view(r@) == by_path(diffs_view(changes@)),
{
    let ghost dv = diffs_view(changes@);
    let mut keyed: Vec<(String, usize)> = Vec::new();
    let mut i: usize = 0;
    while i < changes.len()
        invariant
            i <= changes@.len(),
            dv == diffs_view(changes@),
            keyed_view(keyed@) == Seq::new(i as nat, |j: int| (diff_path(dv[j]), j as usize)),
        decreases changes.len() - i,
    {
        let ghost before = keyed_view(keyed@);
        let p = changes[i].path().clone();
        keyed.push((p, i));
        assert(keyed_view(keyed@) =~= before.push((diff_path(dv[i as int]), i)));
        assert(keyed_view(keyed@) =~= Seq::new((i + 1) as nat, |j: int| (diff_path(dv[j]), j as usize)));
        i = i + 1;
    }
    let sorted = sort_naturally(keyed);
    let ghost keys = Seq::new(dv.len(), |j: int| (diff_path(dv[j]), j as usize));
    let ghost order = natural_sorted(keys);
    proof {
        lemma_sorted_indices(keys, keyed_view(sorted@), dv.len() as int);
    }
    let ghost parts = order.map_values(|e: (Seq<char>, usize)| dv[e.1 as int]);
    let mut out: Vec<ClobDiff> = Vec::new();
    let mut k: usize = 0;
    while k < sorted.len()
        invariant
            k <= sorted@.len(),
            keyed_view(sorted@) == order,
            dv == diffs_view(changes@),
            forall|j: int| 0 <= j < order.len() ==> (#[trigger] order[j].1 as int) < changes@.len(),
            parts == order.map_values(|e: (Seq<char>, usize)| dv[e.1 as int]),
            diffs_view(out@) == parts.take(k as int),
        decreases sorted.len() - k,
    {
        let idx = sorted[k].1;
        assert(order[k as int].1 == idx);
        let ghost before = diffs_view(out@);
        let d = changes[idx].duplicate();
        assert(d@ == dv[idx as int]);
        out.push(d);
        assert(diffs_view(out@) =~= before.push(dv[idx as int]));
        assert(parts[k as int] == dv[idx as int]);
        assert(parts.take(k + 1) =~= parts.take(k as int).push(parts[k as int]));
        assert(diffs_view(out@) =~= parts.take(k + 1));
        k = k + 1;
    }
    assert(parts.take(sorted@.len() as int) == parts);
    out
}

// ---------------------------------------------------------------------
// Revision and path
// ---------------------------------------------------------------------

/// Index of the first `:` of `t` at or after `i`, or its length.
pub open spec fn first_colon(t: Seq<char>, i: int) -> int
    decreases t.len() - i,
{
    if i >= t.len() {
        t.len() as int
    } else if t[i] == ':' {
        i
    } else {
        first_colon(t, i + 1)
    }
}

pub open spec fn no_newline(s: Seq<char>) -> bool {
    forall|i: int| 0 <= i < s.len() ==> s[i] != '\n'
}

/// A `rev:path` specification read as the pattern `^((?P<rev>[^:]*):)?(?P<path>.+)$`
/// reads it: the revision runs up to the first `:` when a non-empty path
/// without line breaks follows; otherwise the whole text is the path and the
/// revision is `HEAD`. Both parts are trimmed; `None` when nothing matches.
pub open spec fn path_spec_parts(t: Seq<char>) -> Option<(Seq<char>, Seq<char>)> {
    let k = first_colon(t, 0);
    if k + 1 < t.len() && no_newline(t.subrange(k + 1, t.len() as int)) {
        Some((trim(t.subrange(0, k)), trim(t.subrange(k + 1, t.len() as int))))
    } else if t.len() > 0 && no_newline(t) {
        Some(("HEAD"@, trim(t)))
    } else {
        None
    }
}

fn no_newline_range(v: &Vec<char>, lo: usize, hi: usize) -> (r: bool)
    requires
        lo <= hi <= v@.len(),
    ensures
        r == no_newline(v@.subrange(lo as int, hi as int)),
{
    let mut i: usize = lo;
    while i < hi
        invariant
            lo <= i <= hi <= v@.len(),
            forall|j: int| lo <= j < i ==> v@[j] != '\n',
        decreases hi - i,
    {
        if v[i] == '\n' {
            assert(v@.subrange(lo as int, hi as int)[i - lo] == '\n');
            return false;
        }
        i = i + 1;
    }
    assert forall|j: int| 0 <= j < hi - lo implies v@.subrange(lo as int, hi as int)[j] != '\n' by {
        assert(v@.subrange(lo as int, hi as int)[j] == v@[lo + j]);
    }
    true
}

fn trimmed_range(v: &Vec<char>, lo: usize, hi: usize) -> (r: String)
    requires
        lo <= hi <= v@.len(),
    ensures
        r@ == trim(v@.subrange(lo as int, hi as int)),
{
    let part = crate::text::copy_range(v, lo, hi);
    let (a, b) = trim_bounds(&part);
    string_of_range(&part, a, b)
}

/// Splits a `rev:path` specification into its revision and its path (see
/// `path_spec_parts`).
pub fn parse_path_spec(pathspec: &str) -> (r: Option<(String, String)>)
    ensures
        match path_spec_parts(pathspec@) {
            Some((rev, path)) => r is Some && r->Some_0.0@ == rev && r->Some_0.1@ == path,
            None => r is None,
        },
{
    let v = chars_of(pathspec);
    let n = v.len();
    let mut k: usize = 0;
    while k < n && v[k] != ':'
        invariant
            k <= n == v@.len(),
            first_colon(v@, 0) == first_colon(v@, k as int),
        decreases n - k,
    {
        k = k + 1;
    }
    if k < n && k + 1 < n && no_newline_range(&v, k + 1, n) {
        return Some((trimmed_range(&v, 0, k), trimmed_range(&v, k + 1, n)));
    }
    assert(v@.subrange(0, n as int) == v@);
    if n > 0 && no_newline_range(&v, 0, n) {
        Some((String::from_str("HEAD"), trimmed_range(&v, 0, n)))
    } else {
        None
    }
}

} // verus!
