use git_toolbox::clob::Clob;
use git_toolbox::config::{Dictionary, DictionaryConfig, IdPattern};
use git_toolbox::id_splitter::{extract_id, extract_id_from_captures, Id};
use git_toolbox::issue::ToolboxFileIssue;
use git_toolbox::scanner::Line;
use git_toolbox::shard::{build_path_prefix, sanitize_label, shard_of_decomposed, trim_string};

fn config(unique_id: bool) -> DictionaryConfig {
    DictionaryConfig {
        name: "Test".to_string(),
        path: "dict/Lex.txt".to_string(),
        record_tag: r"\lx".to_string(),
        unique_id,
        id_tag: Some(r"\id".to_string()),
        id_spec: IdPattern::new("(?P<namespace>[a-zA-Z]*)(?P<id>[0-9]+)").unwrap(),
        lifecycle: false,
        lifecycle_tag: None,
    }
}

fn split(text: &str, unique_id: bool) -> (Vec<Clob>, Vec<ToolboxFileIssue>) {
    let d = Dictionary::from_text(text, config(unique_id), false).ok().unwrap();
    d.split().ok().unwrap()
}

fn clob(path: &str, content: &str) -> Clob {
    Clob { path: path.to_string(), content: content.to_string() }
}

fn line(n: usize, t: &str) -> Line {
    Line { line: n, text: t.to_string() }
}

#[test]
fn single_record_scenario() {
    let (clobs, issues) = split("\\_sh v3.0 1 Dictionary\n\\lx foo\n\\ge bar\n", false);
    assert_eq!(clobs, vec![clob("fo/o_/foo.txt", "\\lx foo\n\\ge bar\n")]);
    assert!(issues.is_empty());
}

#[test]
fn scenario_header_without_underscore_is_not_a_header() {
    let (clobs, issues) = split("\\sh v3.0 1 Dictionary\n\\lx foo\n\\ge bar\n", false);
    assert_eq!(clobs.len(), 2);
    assert_eq!(clobs[0], clob("fo/o_/foo.txt", "\\lx foo\n\\ge bar\n"));
    assert_eq!(clobs[1], clob("invalid/__.txt", "\\sh v3.0 1 Dictionary\n"));
    assert_eq!(issues[0], ToolboxFileIssue::MissingDictionaryHeader { line: 0 });
    assert_eq!(issues[1], ToolboxFileIssue::LineBeforeFirstRecord { line: line(0, "\\sh v3.0 1 Dictionary") });
}

#[test]
fn strict_load_rejects_missing_header() {
    let r = Dictionary::from_text("\\lx foo\n", config(false), true);
    assert_eq!(r.err(), Some(0));
}

#[test]
fn records_with_one_label_share_an_object() {
    let text = "\\_sh v3.0 1 Dictionary\n\\lx Foo\n\\ge a\n\n\\lx bar\n\\ge b\n\\lx foo\n\\ge c\n";
    let (clobs, issues) = split(text, false);
    assert_eq!(
        clobs,
        vec![
            clob("fo/o_/foo.txt", "\\lx Foo\n\\ge a\n\n\\lx foo\n\\ge c\n"),
            clob("ba/r_/bar.txt", "\\lx bar\n\\ge b\n"),
        ]
    );
    assert!(issues.is_empty());
}

#[test]
fn missing_label_and_untagged_lines() {
    let text = "\\_sh v3.0 1 Dictionary\n\\lx   \nloose\n\\lx ok\n";
    let (clobs, issues) = split(text, false);
    assert_eq!(
        clobs,
        vec![clob("invalid/label_missing.txt", "\\lx   \nloose\n"), clob("ok/__/ok.txt", "\\lx ok\n")]
    );
    assert_eq!(
        issues,
        vec![
            ToolboxFileIssue::MissingRecordLabel { line: line(1, "\\lx   ") },
            ToolboxFileIssue::UntaggedLine { line: line(2, "loose") },
        ]
    );
}

#[test]
fn lines_before_the_first_record_are_kept() {
    let text = "\\_sh v3.0 1 Dictionary\n\\co note\n\n\n\\co more\n\\lx a\n";
    let (clobs, issues) = split(text, false);
    assert_eq!(clobs[1], clob("invalid/__.txt", "\\co note\n\n\\co more\n"));
    assert_eq!(issues.len(), 2);
}

#[test]
fn label_is_sanitized() {
    assert_eq!(sanitize_label("Ålesund, Norway!"), "alesund_norway_");
    assert_eq!(sanitize_label("a--b"), "a_b");
    assert_eq!(trim_string("  x y \t"), "x y");
}

#[test]
fn shard_is_two_pairs() {
    assert_eq!(build_path_prefix("foo"), "fo/o_");
    assert_eq!(build_path_prefix("a-b-c-d-e"), "ab/cd");
    assert_eq!(build_path_prefix(""), "__/__");
    assert_eq!(build_path_prefix("éa"), "ea/__");
    assert_eq!(shard_of_decomposed(&vec!['x', '!', 'y']), "xy/__");
    for name in ["", "a", "Zürich", "12345", "--"] {
        let s = build_path_prefix(name);
        let c: Vec<char> = s.chars().collect();
        assert_eq!(c.len(), 5);
        assert_eq!(c[2], '/');
    }
}

#[test]
fn id_mode_merges_shared_ids_and_diagnoses_each() {
    let text = "\\_sh v3.0 1 Dictionary\n\\lx a\n\\id 12\n\\lx b\n\\id 12\n\\lx c\n\\id ns7\n";
    let (clobs, issues) = split(text, true);
    assert_eq!(
        clobs,
        vec![
            clob("public/12/__/12.txt", "\\lx a\n\\id 12\n\n\\lx b\n\\id 12\n"),
            clob("private/ns/ns7.txt", "\\lx c\n\\id ns7\n"),
            clob("invalid/id_missing.txt", ""),
        ]
    );
    assert_eq!(
        issues,
        vec![
            ToolboxFileIssue::AmbiguousID { record: line(1, "\\lx a"), line: line(2, "\\id 12") },
            ToolboxFileIssue::AmbiguousID { record: line(3, "\\lx b"), line: line(4, "\\id 12") },
        ]
    );
}

#[test]
fn id_mode_diagnostics() {
    let text = "\\_sh v3.0 1 Dictionary\n\\lx a\n\\id x!\n\\id 5\n\\id 6\n\\lx b\n";
    let (clobs, issues) = split(text, true);
    assert_eq!(
        clobs,
        vec![
            clob("public/5_/__/5.txt", "\\lx a\n\\id x!\n\\id 5\n\\id 6\n"),
            clob("invalid/id_missing.txt", "\\lx b\n"),
        ]
    );
    assert_eq!(
        issues,
        vec![
            ToolboxFileIssue::InvalidID { record: line(1, "\\lx a"), line: line(2, "\\id x!") },
            ToolboxFileIssue::ExtraneousID { record: line(1, "\\lx a"), line: line(4, "\\id 6") },
            ToolboxFileIssue::MissingID { line: line(5, "\\lx b") },
        ]
    );
}

#[test]
fn non_ascii_path_is_refused() {
    let mut cfg = config(true);
    cfg.id_spec = IdPattern::new(r"(?P<namespace>\p{L}*)(?P<id>[0-9]+)").unwrap();
    let d = Dictionary::from_text("\\_sh v3.0 1 Dictionary\n\\lx a\n\\id ß1\n", cfg, false).ok().unwrap();
    let r = d.split();
    assert_eq!(r.err(), Some(clob("private/ß/ß1.txt", "\\lx a\n\\id ß1\n")));
}

#[test]
fn id_extraction() {
    let p = IdPattern::new("(?P<namespace>[a-zA-Z]*)(?P<id>[0-9]+)").unwrap();
    assert_eq!(p.source(), "(?P<namespace>[a-zA-Z]*)(?P<id>[0-9]+)");
    assert_eq!(
        extract_id("abc12", &p),
        Some(Id { full: "abc12".to_string(), namespace: Some("abc".to_string()), id: "12".to_string() })
    );
    assert_eq!(extract_id("12", &p), Some(Id { full: "12".to_string(), namespace: None, id: "12".to_string() }));
    assert_eq!(extract_id("12x", &p), None);
    assert_eq!(extract_id("x", &p), None);
    let caps = Some(("k 3".to_string(), Some(" ".to_string()), Some(" 3 ".to_string())));
    assert_eq!(
        extract_id_from_captures("k 3", caps),
        Some(Id { full: "k 3".to_string(), namespace: None, id: "3".to_string() })
    );
    assert_eq!(extract_id_from_captures("k", Some(("j".to_string(), None, Some("1".to_string())))), None);
    assert_eq!(extract_id_from_captures("k", Some(("k".to_string(), None, None))), None);
    assert!(IdPattern::new("(").is_err());
}

#[test]
fn contents_root_is_beside_the_dictionary() {
    let d = Dictionary::from_text("\\_sh v3.0 1 Dictionary\n", config(false), true).ok().unwrap();
    assert_eq!(d.contents_root(), "dict/Lex.txt.contents");
}

#[test]
fn records_keep_every_body_once() {
    let text = "\\_sh v3.0 1 Dictionary\n\\lx b\n\\ge 1\n\\lx a\n\\ge 2\n\\lx b\n\\ge 3\n\\lx c\n";
    let (clobs, _) = split(text, false);
    let total: usize = clobs.iter().map(|c| c.content.matches("\\lx ").count()).sum();
    assert_eq!(total, 4);
    for body in ["\\lx b\n\\ge 1\n", "\\lx a\n\\ge 2\n", "\\lx b\n\\ge 3\n", "\\lx c\n"] {
        assert_eq!(clobs.iter().filter(|c| c.content.contains(body)).count(), 1);
    }
}

#[test]
fn control_characters_vanish_from_labels() {
    assert_eq!(sanitize_label("a\tb"), "ab");
}

#[test]
fn id_pattern_matches_the_whole_text() {
    let p = IdPattern::new("(?P<namespace>)(?P<id>a|ab)").unwrap();
    assert_eq!(p.source(), "(?P<namespace>)(?P<id>a|ab)");
    assert_eq!(extract_id("ab", &p), Some(Id { full: "ab".to_string(), namespace: None, id: "ab".to_string() }));
    assert_eq!(extract_id("abc", &p), None);
}
