use git_toolbox::clob::{Clob, ClobDiff, ClobValidationIssue};
use git_toolbox::config::{Config, DictionaryConfig, IdPattern, UserRole};
use git_toolbox::reconstruct::{parse_path_spec, clean_report, reconstruct_content, sort_changes_by_path, MANAGED_FILE_TEXT};
use git_toolbox::util::{c_escape_str, escape_unicode_only, parse_git_attribute_line};

#[test]
fn c_escaping() {
    assert_eq!(c_escape_str("plain/path.txt"), "\"plain/path.txt\"");
    assert_eq!(c_escape_str("a \"b\"\t\\"), "\"a \\\"b\\\"\\t\\\\\"");
    assert_eq!(c_escape_str("é\u{1}"), "\"é\\u{1}\"");
}

#[test]
fn unicode_escaping() {
    assert_eq!(escape_unicode_only("abc"), "abc");
    assert_eq!(escape_unicode_only("é\n"), "\\u{e9}\\u{a}");
    assert_eq!(escape_unicode_only("\u{1f600}"), "\\u{1f600}");
}

#[test]
fn attribute_lines() {
    assert_eq!(
        parse_git_attribute_line("  dict/Lex.txt filter=toolbox-filter "),
        ("dict/Lex.txt".to_string(), " filter=toolbox-filter".to_string())
    );
    assert_eq!(
        parse_git_attribute_line("\"a \\\" b\" filter=x"),
        ("\"a \\\" b\"".to_string(), " filter=x".to_string())
    );
    assert_eq!(parse_git_attribute_line("pattern"), ("pattern".to_string(), String::new()));
    assert_eq!(parse_git_attribute_line("\"open"), ("\"open".to_string(), String::new()));
}

#[test]
fn natural_order() {
    let del = |p: &str| ClobDiff::Delete { path: p.to_string() };
    let s = sort_changes_by_path(&vec![del("a10.txt"), del("a2.txt"), del("a1.txt")]);
    assert_eq!(s, vec![del("a1.txt"), del("a2.txt"), del("a10.txt")]);
}

#[test]
fn reassembled_text() {
    let paths = vec!["r/b10.txt".to_string(), "r/b9.txt".to_string()];
    let blobs = vec![b"ten".to_vec(), b"nine".to_vec()];
    let out = reconstruct_content(&paths, &blobs);
    assert_eq!(out, b"\\_sh v3.0  864  Dictionary\n\nnine\nten".to_vec());
    assert_eq!(reconstruct_content(&vec![], &vec![]), b"\\_sh v3.0  864  Dictionary\n".to_vec());
}

#[test]
fn filter_report() {
    assert_eq!(clean_report(&vec![]), MANAGED_FILE_TEXT);
    let changes = vec![
        ClobDiff::Delete { path: "r/x/item10.txt".to_string() },
        ClobDiff::Add { clob: Clob { path: "r/y/item9.txt".to_string(), content: String::new() } },
    ];
    assert_eq!(clean_report(&changes), "added    item9.txt\ndeleted  item10.txt\n");
    assert_eq!(changes[0].filename(), "item10.txt");
    assert_eq!(changes[0].diff_marker(), "deleted ");
    assert_eq!(changes[1].path(), "r/y/item9.txt");
}

#[test]
fn issue_paths() {
    assert_eq!(ClobValidationIssue::AddedInWorkdir { path: "p.txt".to_string() }.path(), "p.txt");
    assert_eq!(ClobValidationIssue::InvalidPath { path: vec![0xff] }.path(), "");
}

#[test]
fn validated_checks_ascii() {
    let ok = Clob { path: "a/b.txt".to_string(), content: "é".to_string() };
    assert_eq!(ok.validated(), Clob { path: "a/b.txt".to_string(), content: "é".to_string() });
}

#[test]
fn default_role_is_user() {
    assert_eq!(UserRole::default(), UserRole::User);
}

#[test]
fn path_spec_parsing() {
    let s = |a: &str, b: &str| Some((a.to_string(), b.to_string()));
    assert_eq!(parse_path_spec("HEAD~1:dict/Lex.txt"), s("HEAD~1", "dict/Lex.txt"));
    assert_eq!(parse_path_spec(" dict/Lex.txt "), s("HEAD", "dict/Lex.txt"));
    assert_eq!(parse_path_spec(":x"), s("", "x"));
    assert_eq!(parse_path_spec("abc:"), s("HEAD", "abc:"));
    assert_eq!(parse_path_spec(""), None);
    assert_eq!(parse_path_spec("a\nb"), None);
}

#[test]
fn dictionary_lookup() {
    let dict = |name: &str, path: &str| DictionaryConfig {
        name: name.to_string(),
        path: path.to_string(),
        record_tag: r"\lx".to_string(),
        unique_id: false,
        id_tag: None,
        id_spec: IdPattern::new("(?P<namespace>)(?P<id>.+)").unwrap(),
        lifecycle: false,
        lifecycle_tag: None,
    };
    let cfg = Config { users: vec![], dictionaries: vec![dict("A", "a.txt"), dict("B", "b.txt"), dict("C", "c.txt"), dict("D", "c.txt")] };
    assert_eq!(cfg.dictionary_by_path("b.txt").map(|d| d.name.clone()), Some("B".to_string()));
    assert!(cfg.dictionary_by_path("x.txt").is_none());
    assert!(cfg.dictionary_by_path("c.txt").is_none());
}

#[test]
fn paths_relative_to_the_repository() {
    use_paths();
}

fn use_paths() {
    let rel = git_toolbox::paths::get_path_relative_to_root;
    assert_eq!(rel("/repo/dict/Lex.txt", "/repo/"), Some("dict/Lex.txt".to_string()));
    assert_eq!(rel("/repo2/x", "/repo"), None);
    assert_eq!(rel("/repo", "/repo"), Some(String::new()));
    assert_eq!(rel("a/./b//c", "a"), Some("b/c".to_string()));
    assert_eq!(rel("/a", "a"), None);
    assert_eq!(git_toolbox::paths::components("/x//./y/"), vec!["x".to_string(), "y".to_string()]);
}
