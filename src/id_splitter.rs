//! The id splitter: one content object per record id; records that share an
//! id are merged into one object and each is diagnosed.

use vstd::prelude::*;
use crate::scanner::{LineV, TokenV, Token, Line, scan_tokens, scan_measure, lemma_step};
use crate::issue::{IssueV, ToolboxFileIssue, issues_view, sorted_by_line, sort_issues};
use crate::clob::{Clob, ClobV, clobs_view};
use crate::config::{Dictionary, IdPattern, anchored, id_captures, captures_view, pattern_captures};
use crate::shard::{trim, trim_string, shard, nfd, build_path_prefix};
use crate::text::{strings_view, join_lines, join_strings, string_of};
use crate::groups::{
    grouped, group_new, group_insert, group_contains, group_values, index_map, first_keys,
    indices_of, lemma_indices_of, lemma_first_keys, lemma_index_map_push,
};
use crate::split::{
    before_records, handle_before_records, group_text, orphan_objects, orphan_clobs, join_indexed,
    all_ascii_paths, check_paths,
};
use vstd::utf8::is_ascii_chars;

verus! {

/// A record id as the model sees it.
pub struct IdV {
    /// The whole id text.
    pub full: Seq<char>,
    pub namespace: Option<Seq<char>>,
    pub id: Seq<char>,
}

/// A record id: the whole text, its namespace (if any) and its id part.
#[derive(Debug, PartialEq, Eq)]
pub struct Id {
    pub full: String,
    pub namespace: Option<String>,
    pub id: String,
}

impl View for Id {
    type V = IdV;

    open spec fn view(&self) -> IdV {
        IdV {
            full: self.full@,
            namespace: match self.namespace {
                Some(n) => Some(n@),
                None => None,
            },
            id: self.id@,
        }
    }
}

/// The model of an optional id.
pub open spec fn opt_id_view(r: Option<Id>) -> Option<IdV> {
    match r {
        Some(i) => Some(i@),
        None => None,
    }
}

/// The id an id line's (trimmed) text gives, from what the pattern captured
/// in it: the match must cover the whole text and the `id` group must hold
/// more than white space. The namespace is the trimmed `namespace` group,
/// when that holds more than white space.
pub open spec fn id_from_captures(
    text: Seq<char>,
    c: Option<(Seq<char>, Option<Seq<char>>, Option<Seq<char>>)>,
) -> Option<IdV> {
    match c {
        None => None,
        Some((whole, ns, group)) => {
            if whole != text {
                None
            } else {
                match group {
                    None => None,
                    Some(g) => {
                        if trim(g).len() == 0 {
                            None
                        } else {
                            Some(
                                IdV {
                                    full: text,
                                    namespace: match ns {
                                        Some(n) => if trim(n).len() == 0 {
                                            None
                                        } else {
                                            Some(trim(n))
                                        },
                                        None => None,
                                    },
                                    id: trim(g),
                                },
                            )
                        }
                    },
                }
            }
        },
    }
}

/// The id that `text` gives under `pattern`, matched against the whole text.
pub open spec fn id_of(pattern: Seq<char>, text: Seq<char>) -> Option<IdV> {
    id_from_captures(text, id_captures(anchored(pattern), text))
}

/// The id an id line's (trimmed) text gives, from what the pattern captured in it.
pub fn extract_id_from_captures(
    text: &str,
    c: Option<(String, Option<String>, Option<String>)>,
) -> (r: Option<Id>)
    ensures
        opt_id_view(r) == id_from_captures(text@, captures_view(c)),
{
    match c {
        None => None,
        Some((whole, ns, group)) => {
            let t = string_of(crate::text::chars_of(text).as_slice());
            if whole != t {
                return None;
            }
            match group {
                None => None,
                Some(g) => {
                    let id = trim_string(g.as_str());
                    if id.as_str().is_empty() {
                        None
                    } else {
                        let namespace = match ns {
                            Some(n) => {
                                let nt = trim_string(n.as_str());
                                if nt.as_str().is_empty() {
                                    None
                                } else {
                                    Some(nt)
                                }
                            },
                            None => None,
                        };
                        Some(Id { full: t, namespace, id })
                    }
                },
            }
        },
    }
}

/// The id that `text` gives under `pattern`.
pub fn extract_id(text: &str, pattern: &IdPattern) -> (r: Option<Id>)
    ensures
        opt_id_view(r) == id_of(pattern@, text@),
{
    let c = pattern_captures(pattern, text);
    extract_id_from_captures(text, c)
}

/// What the id splitter has gathered.
pub struct IdState {
    pub in_records: bool,
    pub orphans: Seq<Seq<char>>,
    /// The tag line of the record being read.
    pub record_start: LineV,
    /// The line of the record's id.
    pub id_line: LineV,
    /// The record's id, once one is found.
    pub record_id: Option<IdV>,
    /// For each record filed under an id: the id's text, the record's tag
    /// line, its id line and its body.
    pub keys: Seq<Seq<char>>,
    pub starts: Seq<LineV>,
    pub id_lines: Seq<LineV>,
    pub bodies: Seq<Seq<char>>,
    /// The bodies of the records without an id.
    pub missing: Seq<Seq<char>>,
    pub issues: Seq<IssueV>,
}

/// The settings the id splitter reads.
pub struct IdSettings {
    pub record_tag: Seq<char>,
    pub id_tag: Seq<char>,
    pub pattern: Seq<char>,
}

/// Handling one item: see `before_records` for the items before the first
/// record. In a record, the record's tag line starts it (a blank value is
/// diagnosed); an id line gives the record its id when it has none yet (a
/// second id line is diagnosed, and so is one that gives no id); an untagged
/// line is diagnosed; the record's end files it under its id, or with the
/// records without one (diagnosed).
pub open spec fn id_step(st: IdState, item: (LineV, TokenV), cfg: IdSettings) -> IdState {
    let line = item.0;
    let tok = item.1;
    if !st.in_records {
        let b = before_records(st.orphans, st.issues, line, tok);
        IdState { in_records: b.0, orphans: b.1, issues: b.2, ..st }
    } else {
        match tok {
            TokenV::Tagged(tag, value) => {
                if tag == cfg.record_tag {
                    IdState {
                        record_start: line,
                        issues: if trim(value).len() == 0 {
                            st.issues.push(IssueV::MissingRecordLabel(line))
                        } else {
                            st.issues
                        },
                        ..st
                    }
                } else if tag == cfg.id_tag {
                    let issues1 = if st.record_id is Some {
                        st.issues.push(IssueV::ExtraneousID(st.record_start, line))
                    } else {
                        st.issues
                    };
                    match id_of(cfg.pattern, trim(value)) {
                        Some(id) => if st.record_id is None {
                            IdState { record_id: Some(id), id_line: line, issues: issues1, ..st }
                        } else {
                            IdState { issues: issues1, ..st }
                        },
                        None => IdState {
                            issues: issues1.push(IssueV::InvalidID(st.record_start, line)),
                            ..st
                        },
                    }
                } else {
                    st
                }
            },
            TokenV::Untagged(_) => IdState {
                issues: st.issues.push(IssueV::UntaggedLine(line)),
                ..st
            },
            TokenV::RecordEnd(body) => match st.record_id {
                Some(id) => IdState {
                    record_id: None,
                    keys: st.keys.push(id.full),
                    starts: st.starts.push(st.record_start),
                    id_lines: st.id_lines.push(st.id_line),
                    bodies: st.bodies.push(body),
                    ..st
                },
                None => IdState {
                    missing: st.missing.push(body),
                    issues: st.issues.push(IssueV::MissingID(st.record_start)),
                    ..st
                },
            },
            _ => st,
        }
    }
}

/// The line the model starts from before any record.
pub open spec fn no_line() -> LineV {
    LineV { line: 0, text: Seq::empty() }
}

/// What the id splitter gathers from a sequence of items, starting from the
/// dictionary's earlier diagnostics.
pub open spec fn id_fold(items: Seq<(LineV, TokenV)>, cfg: IdSettings, issues: Seq<IssueV>) -> IdState
    decreases items.len(),
{
    if items.len() == 0 {
        IdState {
            in_records: false,
            orphans: Seq::empty(),
            record_start: no_line(),
            id_line: no_line(),
            record_id: None,
            keys: Seq::empty(),
            starts: Seq::empty(),
            id_lines: Seq::empty(),
            bodies: Seq::empty(),
            missing: Seq::empty(),
            issues,
        }
    } else {
        id_step(id_fold(items.drop_last(), cfg, issues), items.last(), cfg)
    }
}

/// Where the records with id `id` are stored: `private/<namespace>/<id>.txt`
/// for a namespaced id, `public/<shard of the id part>/<id>.txt` otherwise.
pub open spec fn id_path(id: IdV) -> Seq<char> {
    match id.namespace {
        Some(ns) => "private/"@ + ns + "/"@ + id.full + ".txt"@,
        None => "public/"@ + shard(nfd(id.id)) + "/"@ + id.full + ".txt"@,
    }
}

/// The object for the id whose text is `k`.
pub open spec fn id_object(st: IdState, pattern: Seq<char>, k: Seq<char>) -> ClobV {
    ClobV { path: id_path(id_of(pattern, k)->Some_0), content: group_text(st.keys, st.bodies, k) }
}

/// The objects the id splitter makes: one per id, in the order the ids first
/// occur; the bucket of records without an id (always present); and the
/// object for the lines before the first record.
pub open spec fn id_objects(st: IdState, pattern: Seq<char>) -> Seq<ClobV> {
    first_keys(st.keys).map_values(|k: Seq<char>| id_object(st, pattern, k)) + seq![
        ClobV { path: "invalid/id_missing.txt"@, content: join_lines(st.missing) },
    ] + orphan_objects(st.orphans)
}

/// The positions among the first `n` filed records whose id another record shares.
pub open spec fn shared_positions(keys: Seq<Seq<char>>, n: int) -> Seq<int>
    decreases n,
{
    if n <= 0 {
        Seq::empty()
    } else if indices_of(keys, keys[n - 1]).len() > 1 {
        shared_positions(keys, n - 1).push(n - 1)
    } else {
        shared_positions(keys, n - 1)
    }
}

/// The diagnostics for ids that more than one record carries: one for each
/// such record, pointing at its tag line and its id line.
pub open spec fn ambiguous_issues(st: IdState) -> Seq<IssueV> {
    shared_positions(st.keys, st.keys.len() as int).map_values(
        |m: int| IssueV::AmbiguousID(st.starts[m], st.id_lines[m]),
    )
}


/// The model of a list of lines.
pub open spec fn lines_view(v: Seq<Line>) -> Seq<LineV> {
    v.map_values(|l: Line| l@)
}

/// The settings of a dictionary that the id splitter reads.
pub open spec fn id_settings(d: Dictionary) -> IdSettings {
    IdSettings {
        record_tag: d.config.record_tag@,
        id_tag: d.config.id_tag->Some_0@,
        pattern: d.config.id_spec@,
    }
}

/// What the id splitter returns for a dictionary: `Err` with an object whose
/// path is not ASCII when there is one; otherwise the objects, and the
/// diagnostics found together with those for shared ids, ordered by line.
pub open spec fn id_split_result(
    d: Dictionary,
    r: Result<(Vec<Clob>, Vec<ToolboxFileIssue>), Clob>,
) -> bool {
    let cfg = id_settings(d);
    let st = id_fold(scan_tokens(d.scanner@), cfg, issues_view(d.issues@));
    let objs = id_objects(st, cfg.pattern);
    &&& r is Ok <==> all_ascii_paths(objs)
    &&& r is Ok ==> clobs_view(r->Ok_0.0@) == objs
    &&& r is Ok ==> issues_view(r->Ok_0.1@).to_multiset() == (st.issues + ambiguous_issues(
        st,
    )).to_multiset()
    &&& r is Ok ==> sorted_by_line(issues_view(r->Ok_0.1@))
    &&& r is Err ==> objs.contains(r->Err_0@) && !is_ascii_chars(r->Err_0@.path)
}

/// Where the records with the given id are stored.
fn id_path_exec(id: &Id) -> (r: String)
    ensures
        r@ == id_path(id@),
{
    match &id.namespace {
        Some(ns) => {
            let mut p = String::from_str("private/");
            p.append(ns.as_str());
            p.append("/");
            p.append(id.full.as_str());
            p.append(".txt");
            p
        },
        None => {
            let mut p = String::from_str("public/");
            let prefix = build_path_prefix(id.id.as_str());
            p.append(prefix.as_str());
            p.append("/");
            p.append(id.full.as_str());
            p.append(".txt");
            p
        },
    }
}

/// Splits a dictionary by record id. Fails, with the offending object, when
/// an object's path would not be ASCII. The diagnostics come ordered by line.
pub fn split(dictionary: Dictionary) -> (r: Result<(Vec<Clob>, Vec<ToolboxFileIssue>), Clob>)
    requires
        dictionary.scanner.wf(),
        scan_measure(dictionary.scanner@) < usize::MAX,
        dictionary.config.id_tag is Some,
    ensures
        id_split_result(dictionary, r),
{
    let Dictionary { config, scanner, issues } = dictionary;
    let mut sc = scanner;
    let mut issues = issues;
    let record_tag = config.record_tag;
    let id_tag = match config.id_tag {
        Some(t) => t,
        None => String::new(),
    };
    let pattern = config.id_spec;
    let ghost cfg = IdSettings { record_tag: record_tag@, id_tag: id_tag@, pattern: pattern@ };
    assert(cfg == id_settings(dictionary));
    let ghost issues0 = issues_view(issues@);
    let ghost all = scan_tokens(sc@);
    let ghost m0 = scan_measure(sc@);
    let ghost mut seen: Seq<(LineV, TokenV)> = Seq::empty();
    let mut in_records = false;
    let mut orphans: Vec<String> = Vec::new();
    let mut record_start = Line { line: 0, text: String::new() };
    let mut id_line = Line { line: 0, text: String::new() };
    let mut record_id: Option<Id> = None;
    let mut keys: Vec<String> = Vec::new();
    let mut starts: Vec<Line> = Vec::new();
    let mut id_lines: Vec<Line> = Vec::new();
    let mut bodies: Vec<String> = Vec::new();
    let mut missing: Vec<String> = Vec::new();
    let mut groups = group_new();
    let mut order: Vec<String> = Vec::new();
    assert(grouped(groups) =~= index_map(strings_view(keys@)));
    assert(strings_view(order@) =~= first_keys(strings_view(keys@)));
    assert(strings_view(orphans@) =~= Seq::<Seq<char>>::empty());
    assert(strings_view(keys@) =~= Seq::<Seq<char>>::empty());
    assert(strings_view(bodies@) =~= Seq::<Seq<char>>::empty());
    assert(strings_view(missing@) =~= Seq::<Seq<char>>::empty());
    assert(lines_view(starts@) =~= Seq::<LineV>::empty());
    assert(lines_view(id_lines@) =~= Seq::<LineV>::empty());
    assert(record_start@ == no_line());
    assert(id_fold(seen, cfg, issues0) == (IdState {
        in_records,
        orphans: strings_view(orphans@),
        record_start: record_start@,
        id_line: id_line@,
        record_id: opt_id_view(record_id),
        keys: strings_view(keys@),
        starts: lines_view(starts@),
        id_lines: lines_view(id_lines@),
        bodies: strings_view(bodies@),
        missing: strings_view(missing@),
        issues: issues_view(issues@),
    }));
    loop
        invariant
            sc.wf(),
            all == seen + scan_tokens(sc@),
            seen.len() + scan_measure(sc@) <= m0,
            m0 < usize::MAX,
            cfg == (IdSettings { record_tag: record_tag@, id_tag: id_tag@, pattern: pattern@ }),
            keys@.len() == bodies@.len(),
            keys@.len() == starts@.len(),
            keys@.len() == id_lines@.len(),
            keys@.len() <= seen.len(),
            id_fold(seen, cfg, issues0) == (IdState {
                in_records,
                orphans: strings_view(orphans@),
                record_start: record_start@,
                id_line: id_line@,
                record_id: opt_id_view(record_id),
                keys: strings_view(keys@),
                starts: lines_view(starts@),
                id_lines: lines_view(id_lines@),
                bodies: strings_view(bodies@),
                missing: strings_view(missing@),
                issues: issues_view(issues@),
            }),
            record_id is Some ==> id_of(pattern@, record_id->Some_0@.full) == opt_id_view(
                record_id,
            ),
            forall|j: int|
                0 <= j < keys@.len() ==> (#[trigger] id_of(pattern@, keys@[j]@)) is Some,
            grouped(groups) == index_map(strings_view(keys@)),
            strings_view(order@) == first_keys(strings_view(keys@)),
        ensures
            all == seen,
        decreases scan_measure(sc@),
    {
        proof {
            lemma_step(sc@);
        }
        let ghost s_before = sc@;
        match sc.next() {
            None => {
                assert(scan_tokens(s_before) == Seq::<(LineV, TokenV)>::empty());
                assert(all == seen);
                break;
            },
            Some((line, tok)) => {
                let ghost item = (line@, tok@);
                assert(scan_tokens(s_before) == seq![item] + scan_tokens(sc@));
                let ghost prev = seen;
                let ghost pst = id_fold(prev, cfg, issues0);
                proof {
                    seen = seen.push(item);
                    assert(all == seen + scan_tokens(sc@));
                    assert(seen.drop_last() == prev);
                }
                if !in_records {
                    in_records = handle_before_records(&mut orphans, &mut issues, line, &tok);
                } else {
                    match tok {
                        Token::Tagged { tag, text } => {
                            if tag == record_tag {
                                let t = trim_string(text.as_str());
                                if t.as_str().is_empty() {
                                    issues.push(
                                        ToolboxFileIssue::MissingRecordLabel { line: line.duplicate() },
                                    );
                                    assert(issues_view(issues@) =~= pst.issues.push(
                                        IssueV::MissingRecordLabel(item.0),
                                    ));
                                }
                                record_start = line;
                            } else if tag == id_tag {
                                if record_id.is_some() {
                                    issues.push(
                                        ToolboxFileIssue::ExtraneousID {
                                            record: record_start.duplicate(),
                                            line: line.duplicate(),
                                        },
                                    );
                                    assert(issues_view(issues@) =~= pst.issues.push(
                                        IssueV::ExtraneousID(pst.record_start, item.0),
                                    ));
                                }
                                let ghost issues1 = issues_view(issues@);
                                let t = trim_string(text.as_str());
                                match extract_id(t.as_str(), &pattern) {
                                    Some(id) => {
                                        if record_id.is_none() {
                                            record_id = Some(id);
                                            id_line = line;
                                        }
                                    },
                                    None => {
                                        issues.push(
                                            ToolboxFileIssue::InvalidID {
                                                record: record_start.duplicate(),
                                                line,
                                            },
                                        );
                                        assert(issues_view(issues@) =~= issues1.push(
                                            IssueV::InvalidID(pst.record_start, item.0),
                                        ));
                                    },
                                }
                            }
                        },
                        Token::Untagged { text: _ } => {
                            issues.push(ToolboxFileIssue::UntaggedLine { line });
                            assert(issues_view(issues@) =~= pst.issues.push(
                                IssueV::UntaggedLine(item.0),
                            ));
                        },
                        Token::RecordEnd { body } => {
                            let rid = record_id;
                            record_id = None;
                            match rid {
                                Some(id) => {
                                    let n = keys.len();
                                    let ghost kv = strings_view(keys@);
                                    let ghost lv = id.full@;
                                    proof {
                                        lemma_first_keys(kv);
                                        lemma_indices_of(kv, lv);
                                        lemma_index_map_push(kv, lv);
                                        assert(kv.push(lv).drop_last() == kv);
                                    }
                                    if !group_contains(&groups, &id.full) {
                                        order.push(id.full.clone());
                                        assert(strings_view(order@) =~= first_keys(kv.push(lv)));
                                    } else {
                                        assert(first_keys(kv.push(lv)) == first_keys(kv));
                                    }
                                    group_insert(&mut groups, id.full.clone(), n);
                                    let ghost old_keys = keys@;
                                    let ghost old_starts = lines_view(starts@);
                                    let ghost old_id_lines = lines_view(id_lines@);
                                    let ghost old_bodies = strings_view(bodies@);
                                    keys.push(id.full);
                                    starts.push(record_start.duplicate());
                                    id_lines.push(id_line.duplicate());
                                    bodies.push(body);
                                    assert(strings_view(keys@) =~= kv.push(lv));
                                    assert(lines_view(starts@) =~= old_starts.push(pst.record_start));
                                    assert(lines_view(id_lines@) =~= old_id_lines.push(pst.id_line));
                                    assert(strings_view(bodies@) =~= old_bodies.push(
                                        item.1->RecordEnd_0,
                                    ));
                                    assert forall|j: int|
                                        0 <= j < keys@.len() implies (#[trigger] id_of(
                                        pattern@,
                                        keys@[j]@,
                                    )) is Some by {
                                        if j == n {
                                            assert(keys@[j]@ == lv);
                                        } else {
                                            assert(keys@[j] == old_keys[j]);
                                        }
                                    }
                                },
                                None => {
                                    let ghost old_missing = strings_view(missing@);
                                    missing.push(body);
                                    issues.push(
                                        ToolboxFileIssue::MissingID { line: record_start.duplicate() },
                                    );
                                    assert(strings_view(missing@) =~= old_missing.push(
                                        item.1->RecordEnd_0,
                                    ));
                                    assert(issues_view(issues@) =~= pst.issues.push(
                                        IssueV::MissingID(pst.record_start),
                                    ));
                                },
                            }
                        },
                        _ => {},
                    }
                }
            },
        }
    }
    let ghost st = id_fold(all, cfg, issues0);
    let ghost kv = strings_view(keys@);
    proof {
        lemma_first_keys(kv);
    }
    let mut amb: Vec<ToolboxFileIssue> = Vec::new();
    let mut m: usize = 0;
    while m < keys.len()
        invariant
            m <= keys@.len(),
            kv == strings_view(keys@),
            st.keys == kv,
            st.starts == lines_view(starts@),
            st.id_lines == lines_view(id_lines@),
            keys@.len() == starts@.len(),
            keys@.len() == id_lines@.len(),
            keys@.len() < usize::MAX,
            grouped(groups) == index_map(kv),
            issues_view(amb@) == shared_positions(kv, m as int).map_values(
                |x: int| IssueV::AmbiguousID(st.starts[x], st.id_lines[x]),
            ),
        decreases keys.len() - m,
    {
        proof {
            lemma_indices_of(kv, kv[m as int]);
            assert(kv.contains(kv[m as int]));
        }
        let idx = group_values(&groups, &keys[m]);
        let ghost before = issues_view(amb@);
        if idx.len() > 1 {
            amb.push(
                ToolboxFileIssue::AmbiguousID {
                    record: starts[m].duplicate(),
                    line: id_lines[m].duplicate(),
                },
            );
            assert(issues_view(amb@) =~= before.push(
                IssueV::AmbiguousID(st.starts[m as int], st.id_lines[m as int]),
            ));
        }
        assert(shared_positions(kv, m + 1).map_values(
            |x: int| IssueV::AmbiguousID(st.starts[x], st.id_lines[x]),
        ) =~= issues_view(amb@));
        m = m + 1;
    }
    assert(issues_view(amb@) == ambiguous_issues(st));
    let ghost first_part = issues_view(issues@);
    issues.append(&mut amb);
    assert(issues_view(issues@) =~= st.issues + ambiguous_issues(st));
    let sorted = sort_issues(issues);
    let mut clobs: Vec<Clob> = Vec::new();
    let mut i: usize = 0;
    while i < order.len()
        invariant
            st == id_fold(all, cfg, issues0),
            kv == strings_view(keys@),
            st.keys == kv,
            st.bodies == strings_view(bodies@),
            keys@.len() == bodies@.len(),
            keys@.len() < usize::MAX,
            cfg.pattern == pattern@,
            forall|j: int| 0 <= j < keys@.len() ==> (#[trigger] id_of(pattern@, keys@[j]@)) is Some,
            grouped(groups) == index_map(kv),
            strings_view(order@) == first_keys(kv),
            forall|k: Seq<char>| first_keys(kv).contains(k) <==> kv.contains(k),
            i <= order@.len(),
            clobs_view(clobs@) == first_keys(kv).take(i as int).map_values(
                |k: Seq<char>| id_object(st, cfg.pattern, k),
            ),
        decreases order.len() - i,
    {
        let k = &order[i];
        assert(first_keys(kv)[i as int] == k@);
        assert(first_keys(kv).contains(k@));
        proof {
            lemma_indices_of(kv, k@);
            let j = choose|j: int| 0 <= j < kv.len() && kv[j] == k@;
            assert(id_of(pattern@, keys@[j]@) is Some);
        }
        let idx = group_values(&groups, k);
        let content = join_indexed(&bodies, &idx);
        assert(idx@.map_values(|j: usize| strings_view(bodies@)[j as int]) =~= indices_of(
            st.keys,
            k@,
        ).map_values(|j: usize| st.bodies[j as int]));
        let path = match extract_id(k.as_str(), &pattern) {
            Some(id) => id_path_exec(&id),
            None => {
                assert(false);
                String::new()
            },
        };
        let ghost before = clobs_view(clobs@);
        clobs.push(Clob { path, content });
        assert(clobs_view(clobs@) =~= before.push(id_object(st, cfg.pattern, k@)));
        assert(first_keys(kv).take(i + 1) =~= first_keys(kv).take(i as int).push(k@));
        i = i + 1;
    }
    assert(first_keys(kv).take(order@.len() as int) == first_keys(kv));
    let joined = join_strings(&missing);
    clobs.push(Clob { path: String::from_str("invalid/id_missing.txt"), content: string_of(joined.as_slice()) });
    let mut rest = orphan_clobs(&orphans);
    clobs.append(&mut rest);
    assert(clobs_view(clobs@) =~= id_objects(st, cfg.pattern));
    match check_paths(clobs) {
        Ok(checked) => Ok((checked, sorted)),
        Err(bad) => Err(bad),
    }
}

} // verus!
