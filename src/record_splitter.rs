//! The label splitter: one content object per record label, holding every
//! record that carries that label.

use vstd::prelude::*;
use crate::scanner::{LineV, TokenV, Token, scan_tokens, scan_measure, lemma_step};
use crate::issue::{IssueV, ToolboxFileIssue, issues_view, sorted_by_line, sort_issues};
use crate::clob::{Clob, ClobV, clobs_view};
use crate::config::Dictionary;
use crate::shard::{lemma_sanitize_ascii, trim, trim_string, sanitize, expand, ascii_pieces, sanitize_label, shard, nfd, build_path_prefix};
use crate::text::strings_view;
use crate::groups::{
    grouped, group_new, group_insert, group_contains, group_values, index_map, first_keys,
    indices_of, lemma_indices_of, lemma_first_keys, lemma_index_map_push,
};
use crate::split::{
    before_records, handle_before_records, group_text, orphan_objects, orphan_clobs, join_indexed,
    all_ascii_paths, check_paths,
};
use vstd::utf8::is_ascii_chars;

verus! {

/// What the label splitter has gathered.
pub struct LabelState {
    /// Whether the first record has started.
    pub in_records: bool,
    /// The lines before the first record.
    pub orphans: Seq<Seq<char>>,
    /// The label of the record being read.
    pub label: Seq<char>,
    /// The label of each finished record.
    pub keys: Seq<Seq<char>>,
    /// The body of each finished record.
    pub bodies: Seq<Seq<char>>,
    pub issues: Seq<IssueV>,
}

/// The label a record's tag value gives: its file-name form.
pub open spec fn label_of(value: Seq<char>) -> Seq<char> {
    sanitize(expand(ascii_pieces(value)))
}

/// Handling one item: see `before_records` for the items before the first
/// record. In a record, the record's tag line sets the label (a blank value
/// is diagnosed), an untagged line is diagnosed, and the record's end files
/// its body under its label.
pub open spec fn label_step(st: LabelState, item: (LineV, TokenV), record_tag: Seq<char>) -> LabelState {
    let line = item.0;
    let tok = item.1;
    if !st.in_records {
        let b = before_records(st.orphans, st.issues, line, tok);
        LabelState { in_records: b.0, orphans: b.1, issues: b.2, ..st }
    } else {
        match tok {
            TokenV::Tagged(tag, value) => {
                if tag == record_tag {
                    let t = trim(value);
                    LabelState {
                        label: label_of(t),
                        issues: if t.len() == 0 {
                            st.issues.push(IssueV::MissingRecordLabel(line))
                        } else {
                            st.issues
                        },
                        ..st
                    }
                } else {
                    st
                }
            },
            TokenV::Untagged(_) => LabelState {
                issues: st.issues.push(IssueV::UntaggedLine(line)),
                ..st
            },
            TokenV::RecordEnd(body) => LabelState {
                keys: st.keys.push(st.label),
                bodies: st.bodies.push(body),
                label: Seq::empty(),
                ..st
            },
            _ => st,
        }
    }
}

/// What the label splitter gathers from a sequence of items, starting from
/// the dictionary's earlier diagnostics.
pub open spec fn label_fold(
    items: Seq<(LineV, TokenV)>,
    record_tag: Seq<char>,
    issues: Seq<IssueV>,
) -> LabelState
    decreases items.len(),
{
    if items.len() == 0 {
        LabelState {
            in_records: false,
            orphans: Seq::empty(),
            label: Seq::empty(),
            keys: Seq::empty(),
            bodies: Seq::empty(),
            issues,
        }
    } else {
        label_step(label_fold(items.drop_last(), record_tag, issues), items.last(), record_tag)
    }
}

/// Where the records labelled `k` are stored: `<shard>/<label>.txt`, or the
/// reserved bucket for records without a label.
pub open spec fn label_path(k: Seq<char>) -> Seq<char> {
    if k.len() == 0 {
        "invalid/label_missing.txt"@
    } else {
        shard(nfd(k)) + "/"@ + k + ".txt"@
    }
}

/// The object for label `k`.
pub open spec fn label_object(st: LabelState, k: Seq<char>) -> ClobV {
    ClobV { path: label_path(k), content: group_text(st.keys, st.bodies, k) }
}

/// The objects the label splitter makes: one per label, in the order the
/// labels first occur, then the object for the lines before the first record.
pub open spec fn label_objects(st: LabelState) -> Seq<ClobV> {
    first_keys(st.keys).map_values(|k: Seq<char>| label_object(st, k)) + orphan_objects(st.orphans)
}

/// What the label splitter returns for a dictionary: `Err` with an object
/// whose path is not ASCII when there is one; otherwise the objects and the
/// diagnostics, ordered by line.
pub open spec fn label_split_result(
    d: Dictionary,
    r: Result<(Vec<Clob>, Vec<ToolboxFileIssue>), Clob>,
) -> bool {
    let st = label_fold(scan_tokens(d.scanner@), d.config.record_tag@, issues_view(d.issues@));
    let objs = label_objects(st);
    &&& r is Ok <==> all_ascii_paths(objs)
    &&& r is Ok ==> clobs_view(r->Ok_0.0@) == objs
    &&& r is Ok ==> issues_view(r->Ok_0.1@).to_multiset() == st.issues.to_multiset()
    &&& r is Ok ==> sorted_by_line(issues_view(r->Ok_0.1@))
    &&& r is Err ==> objs.contains(r->Err_0@) && !is_ascii_chars(r->Err_0@.path)
}

/// The labels the splitter files records under are ASCII.
proof fn lemma_label_keys_ascii(items: Seq<(LineV, TokenV)>, tag: Seq<char>, issues: Seq<IssueV>)
    ensures
        forall|i: int|
            0 <= i < label_fold(items, tag, issues).keys.len() ==> is_ascii_chars(
                #[trigger] label_fold(items, tag, issues).keys[i],
            ),
        is_ascii_chars(label_fold(items, tag, issues).label),
    decreases items.len(),
{
    if items.len() > 0 {
        lemma_label_keys_ascii(items.drop_last(), tag, issues);
        let st = label_fold(items.drop_last(), tag, issues);
        match items.last().1 {
            TokenV::Tagged(_, value) => {
                lemma_sanitize_ascii(expand(ascii_pieces(trim(value))));
            },
            TokenV::RecordEnd(_) => {
                assert forall|i: int| 0 <= i < st.keys.push(st.label).len() implies is_ascii_chars(
                    #[trigger] st.keys.push(st.label)[i],
                ) by {
                    if i < st.keys.len() {
                        assert(st.keys.push(st.label)[i] == st.keys[i]);
                    }
                }
            },
            _ => {},
        }
    }
}

proof fn lemma_concat_ascii(a: Seq<char>, b: Seq<char>)
    requires
        is_ascii_chars(a),
        is_ascii_chars(b),
    ensures
        is_ascii_chars(a + b),
{
    assert forall|i: int| 0 <= i < (a + b).len() implies '\0' <= #[trigger] (a + b)[i] <= '\u{7f}' by {
        if i < a.len() {
            assert((a + b)[i] == a[i]);
        } else {
            assert((a + b)[i] == b[i - a.len()]);
        }
    }
}

/// Where the records labelled `k` are stored.
fn label_path_exec(k: &String) -> (r: String)
    ensures
        r@ == label_path(k@),
        is_ascii_chars(k@) ==> is_ascii_chars(r@),
{
    proof {
        reveal_strlit("invalid/label_missing.txt");
        reveal_strlit("/");
        reveal_strlit(".txt");
    }
    if k.as_str().is_empty() {
        String::from_str("invalid/label_missing.txt")
    } else {
        let mut p = build_path_prefix(k.as_str());
        let ghost p0 = p@;
        p.append("/");
        p.append(k.as_str());
        p.append(".txt");
        proof {
            if is_ascii_chars(k@) {
                lemma_concat_ascii(p0, "/"@);
                lemma_concat_ascii(p0 + "/"@, k@);
                lemma_concat_ascii(p0 + "/"@ + k@, ".txt"@);
            }
        }
        p
    }
}

/// Splits a dictionary by record label. Fails, with the offending object,
/// when an object's path would not be ASCII.
pub fn split(dictionary: Dictionary) -> (r: Result<(Vec<Clob>, Vec<ToolboxFileIssue>), Clob>)
    requires
        dictionary.scanner.wf(),
        scan_measure(dictionary.scanner@) < usize::MAX,
    ensures
        label_split_result(dictionary, r),
        r is Ok,
{
    let Dictionary { config, scanner, issues } = dictionary;
    let mut sc = scanner;
    let mut issues = issues;
    let record_tag = config.record_tag;
    let ghost issues0 = issues_view(issues@);
    let ghost all = scan_tokens(sc@);
    let ghost m0 = scan_measure(sc@);
    let ghost mut seen: Seq<(LineV, TokenV)> = Seq::empty();
    let mut in_records = false;
    let mut orphans: Vec<String> = Vec::new();
    let mut label = String::new();
    let mut keys: Vec<String> = Vec::new();
    let mut bodies: Vec<String> = Vec::new();
    let mut groups = group_new();
    let mut order: Vec<String> = Vec::new();
    assert(all == seen + scan_tokens(sc@));
    assert(grouped(groups) =~= index_map(strings_view(keys@)));
    assert(strings_view(order@) =~= first_keys(strings_view(keys@)));
    assert(label_fold(seen, record_tag@, issues0) == (LabelState {
        in_records,
        orphans: strings_view(orphans@),
        label: label@,
        keys: strings_view(keys@),
        bodies: strings_view(bodies@),
        issues: issues_view(issues@),
    }));
    loop
        invariant
            sc.wf(),
            all == seen + scan_tokens(sc@),
            seen.len() + scan_measure(sc@) <= m0,
            m0 < usize::MAX,
            keys@.len() == bodies@.len(),
            keys@.len() <= seen.len(),
            label_fold(seen, record_tag@, issues0) == (LabelState {
                in_records,
                orphans: strings_view(orphans@),
                label: label@,
                keys: strings_view(keys@),
                bodies: strings_view(bodies@),
                issues: issues_view(issues@),
            }),
            grouped(groups) == index_map(strings_view(keys@)),
            strings_view(order@) == first_keys(strings_view(keys@)),
        ensures
            all == seen,
        decreases scan_measure(sc@),
    {
        proof {
            lemma_step(sc@);
        }
        let ghost s_before = sc@;
        match sc.next() {
            None => {
                assert(scan_tokens(s_before) == Seq::<(LineV, TokenV)>::empty());
                assert(all == seen);
                break;
            },
            Some((line, tok)) => {
                let ghost item = (line@, tok@);
                assert(scan_tokens(s_before) == seq![item] + scan_tokens(sc@));
                let ghost prev = seen;
                proof {
                    seen = seen.push(item);
                    assert(all == seen + scan_tokens(sc@));
                    assert(seen.drop_last() == prev);
                }
                if !in_records {
                    in_records = handle_before_records(&mut orphans, &mut issues, line, &tok);
                } else {
                    match tok {
                        Token::Tagged { tag, text } => {
                            if tag == record_tag {
                                let t = trim_string(text.as_str());
                                if t.as_str().is_empty() {
                                    issues.push(ToolboxFileIssue::MissingRecordLabel { line });
                                    assert(issues_view(issues@) =~= label_fold(
                                        prev,
                                        record_tag@,
                                        issues0,
                                    ).issues.push(IssueV::MissingRecordLabel(item.0)));
                                }
                                label = sanitize_label(t.as_str());
                            }
                        },
                        Token::Untagged { text: _ } => {
                            issues.push(ToolboxFileIssue::UntaggedLine { line });
                            assert(issues_view(issues@) =~= label_fold(
                                prev,
                                record_tag@,
                                issues0,
                            ).issues.push(IssueV::UntaggedLine(item.0)));
                        },
                        Token::RecordEnd { body } => {
                            let n = keys.len();
                            let ghost kv = strings_view(keys@);
                            let ghost bv = strings_view(bodies@);
                            let ghost lv = label@;
                            proof {
                                lemma_first_keys(kv);
                                lemma_indices_of(kv, lv);
                                lemma_index_map_push(kv, lv);
                                assert(kv.push(lv).drop_last() == kv);
                            }
                            if !group_contains(&groups, &label) {
                                order.push(label.clone());
                                assert(strings_view(order@) =~= first_keys(kv.push(lv)));
                            } else {
                                assert(first_keys(kv.push(lv)) == first_keys(kv));
                            }
                            group_insert(&mut groups, label.clone(), n);
                            keys.push(label);
                            bodies.push(body);
                            label = String::new();
                            assert(strings_view(keys@) =~= kv.push(lv));
                            assert(strings_view(bodies@) =~= bv.push(item.1->RecordEnd_0));
                        },
                        _ => {},
                    }
                }
            },
        }
    }
    let ghost st = label_fold(all, record_tag@, issues0);
    let ghost kv = strings_view(keys@);
    let mut clobs: Vec<Clob> = Vec::new();
    let mut i: usize = 0;
    proof {
        lemma_first_keys(kv);
        lemma_label_keys_ascii(all, record_tag@, issues0);
        assert(st.keys == kv);
        assert forall|j: int| 0 <= j < kv.len() implies is_ascii_chars(#[trigger] kv[j]) by {
            assert(kv[j] == st.keys[j]);
        }
    }
    while i < order.len()
        invariant
            st == label_fold(all, record_tag@, issues0),
            kv == strings_view(keys@),
            st.keys == kv,
            st.bodies == strings_view(bodies@),
            keys@.len() == bodies@.len(),
            keys@.len() < usize::MAX,
            grouped(groups) == index_map(kv),
            strings_view(order@) == first_keys(kv),
            forall|k: Seq<char>| first_keys(kv).contains(k) <==> kv.contains(k),
            i <= order@.len(),
            clobs_view(clobs@) == first_keys(kv).take(i as int).map_values(
                |k: Seq<char>| label_object(st, k),
            ),
            forall|j: int| 0 <= j < kv.len() ==> is_ascii_chars(#[trigger] kv[j]),
            all_ascii_paths(clobs_view(clobs@)),
        decreases order.len() - i,
    {
        let k = &order[i];
        assert(first_keys(kv)[i as int] == k@);
        assert(first_keys(kv).contains(k@));
        proof {
            lemma_indices_of(kv, k@);
            let w = choose|w: int| 0 <= w < kv.len() && kv[w] == k@;
            assert(is_ascii_chars(kv[w]));
        }
        let idx = group_values(&groups, k);
        assert(idx@ == indices_of(kv, k@));
        let content = join_indexed(&bodies, &idx);
        assert(idx@.map_values(|j: usize| strings_view(bodies@)[j as int]) =~= indices_of(
            st.keys,
            k@,
        ).map_values(|j: usize| st.bodies[j as int]));
        let path = label_path_exec(k);
        let ghost before = clobs_view(clobs@);
        clobs.push(Clob { path, content });
        assert(clobs_view(clobs@) =~= before.push(label_object(st, k@)));
        assert(forall|j: int| 0 <= j < before.len() ==> clobs_view(clobs@)[j] == before[j]);
        assert(first_keys(kv).take(i + 1) =~= first_keys(kv).take(i as int).push(k@));
        i = i + 1;
    }
    assert(first_keys(kv).take(order@.len() as int) == first_keys(kv));
    let mut rest = orphan_clobs(&orphans);
    let ghost front = clobs_view(clobs@);
    let ghost tail = clobs_view(rest@);
    clobs.append(&mut rest);
    assert(clobs_view(clobs@) =~= front + tail);
    assert(all_ascii_paths(clobs_view(clobs@))) by {
        assert forall|j: int| 0 <= j < clobs_view(clobs@).len() implies is_ascii_chars(
            #[trigger] clobs_view(clobs@)[j].path,
        ) by {
            if j < front.len() {
                assert(clobs_view(clobs@)[j] == front[j]);
            } else {
                assert(clobs_view(clobs@)[j] == tail[j - front.len()]);
            }
        }
    }
    assert(clobs_view(clobs@) =~= label_objects(st));
    let sorted = sort_issues(issues);
    match check_paths(clobs) {
        Ok(checked) => Ok((checked, sorted)),
        Err(bad) => Err(bad),
    }
}

} // verus!
