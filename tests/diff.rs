use git_toolbox::clob::{Clob, ClobDiff, ClobValidationIssue};
use git_toolbox::config::{Dictionary, DictionaryConfig, IdPattern};
use git_toolbox::diff::{diff_clobs_at_path, needs_update, DiffError, IndexEntry, StatusEntry, StatusFlags};
use git_toolbox::workdir::{get_staged_clobs, validate_clobs_in_workdir};

fn config() -> DictionaryConfig {
    DictionaryConfig {
        name: "Test".to_string(),
        path: "Lex.txt".to_string(),
        record_tag: r"\lx".to_string(),
        unique_id: false,
        id_tag: None,
        id_spec: IdPattern::new("(?P<namespace>x)(?P<id>[0-9]+)").unwrap(),
        lifecycle: false,
        lifecycle_tag: None,
    }
}

fn split(text: &str) -> Vec<Clob> {
    Dictionary::from_text(text, config(), true).ok().unwrap().split().ok().unwrap().0
}

fn blob_id(bytes: &[u8]) -> Vec<u8> {
    git2::Oid::hash_object(git2::ObjectType::Blob, bytes).unwrap().as_bytes().to_vec()
}

fn entry(path: &str) -> StatusEntry {
    StatusEntry { path: Some(path.to_string()), path_bytes: path.as_bytes().to_vec(), flags: StatusFlags::default() }
}

/// The stored tree that matches the objects exactly.
fn store(root: &str, clobs: &[Clob]) -> (Vec<StatusEntry>, Vec<IndexEntry>) {
    let mut entries = Vec::new();
    let mut index = Vec::new();
    for c in clobs {
        let p = format!("{}/{}", root, c.path);
        entries.push(entry(&p));
        index.push(IndexEntry { path: p, id: blob_id(c.content.as_bytes()), content: c.content.as_bytes().to_vec() });
    }
    (entries, index)
}

const TEXT: &str = "\\_sh v3.0 1 Dictionary\n\\lx apple\n\\ge a\n\\lx pear\n\\ge b\n\\lx plum\n\\ge c\n";

#[test]
fn fresh_objects_are_added() {
    let clobs = split(TEXT);
    let d = diff_clobs_at_path("Lex.txt.contents", clobs, &vec![], &vec![]).ok().unwrap();
    assert_eq!(d.len(), 3);
    assert_eq!(
        d[0],
        ClobDiff::Add { clob: Clob { path: "Lex.txt.contents/ap/pl/apple.txt".to_string(), content: "\\lx apple\n\\ge a\n".to_string() } }
    );
}

#[test]
fn matching_tree_gives_no_changes() {
    let clobs = split(TEXT);
    let (entries, index) = store("Lex.txt.contents", &clobs);
    let d = diff_clobs_at_path("Lex.txt.contents", split(TEXT), &entries, &index).ok().unwrap();
    assert!(d.is_empty());
}

#[test]
fn deleting_a_record_deletes_only_its_object() {
    let clobs = split(TEXT);
    let (entries, index) = store("Lex.txt.contents", &clobs);
    let shorter = "\\_sh v3.0 1 Dictionary\n\\lx apple\n\\ge a\n\\lx plum\n\\ge c\n";
    let d = diff_clobs_at_path("Lex.txt.contents", split(shorter), &entries, &index).ok().unwrap();
    assert_eq!(d, vec![ClobDiff::Delete { path: "lex.txt.contents/pe/ar/pear.txt".to_string() }]);
}

#[test]
fn changed_content_is_updated() {
    let clobs = split(TEXT);
    let (entries, index) = store("Lex.txt.contents", &clobs);
    let changed = "\\_sh v3.0 1 Dictionary\n\\lx apple\n\\ge A\n\\lx pear\n\\ge b\n\\lx plum\n\\ge c\n";
    let d = diff_clobs_at_path("Lex.txt.contents", split(changed), &entries, &index).ok().unwrap();
    assert_eq!(
        d,
        vec![ClobDiff::Update { clob: Clob { path: "Lex.txt.contents/ap/pl/apple.txt".to_string(), content: "\\lx apple\n\\ge A\n".to_string() } }]
    );
}

#[test]
fn same_id_but_other_bytes_is_updated() {
    let clobs = split(TEXT);
    let (entries, mut index) = store("Lex.txt.contents", &clobs);
    index[0].content = b"something else".to_vec();
    let d = diff_clobs_at_path("Lex.txt.contents", split(TEXT), &entries, &index).ok().unwrap();
    assert_eq!(d.len(), 1);
    assert!(matches!(d[0], ClobDiff::Update { .. }));
}

#[test]
fn path_differing_by_case_is_not_deleted() {
    let clobs = split(TEXT);
    let (mut entries, index) = store("Lex.txt.contents", &clobs);
    entries[0] = entry("Lex.txt.contents/AP/PL/Apple.txt");
    let d = diff_clobs_at_path("Lex.txt.contents", split(TEXT), &entries, &index).ok().unwrap();
    assert!(d.is_empty());
}

#[test]
fn deletion_uses_the_lower_case_path() {
    let entries = vec![entry("Root/Old.txt"), entry("Root/old.txt"), entry("Root/notes.md")];
    let d = diff_clobs_at_path("Root", vec![], &entries, &vec![]).ok().unwrap();
    assert_eq!(d, vec![ClobDiff::Delete { path: "root/old.txt".to_string() }]);
}

#[test]
fn unreadable_path_is_an_error() {
    let bad = StatusEntry { path: None, path_bytes: vec![b'r', 0xff, b'.', b't', b'x', b't'], flags: StatusFlags::default() };
    let r = diff_clobs_at_path("r", vec![], &vec![entry("r/a.txt"), bad], &vec![]);
    assert_eq!(r.err(), Some(DiffError::InvalidManagedPath { path: vec![b'r', 0xff, b'.', b't', b'x', b't'] }));
}

#[test]
fn deleted_in_index_is_not_known() {
    let mut e = entry("r/a.txt");
    e.flags.index_deleted = true;
    let d = diff_clobs_at_path("r", vec![], &vec![e], &vec![]).ok().unwrap();
    assert!(d.is_empty());
}

#[test]
fn update_rule() {
    assert!(!needs_update(b"id", b"x", b"id", b"x"));
    assert!(needs_update(b"id", b"x", b"other", b"x"));
    assert!(needs_update(b"id", b"x", b"id", b"y"));
}

#[test]
fn workdir_edits_are_reported() {
    let mut added = entry("r/a.txt");
    added.flags.wt_new = true;
    let mut modified = entry("r/b.txt");
    modified.flags.wt_modified = true;
    let mut gone = entry("r/c.txt");
    gone.flags.wt_renamed = true;
    let mut other = entry("r/d.md");
    other.flags.wt_new = true;
    let weird = StatusEntry { path: Some("r/é.txt".to_string()), path_bytes: "r/é.txt".as_bytes().to_vec(), flags: StatusFlags::default() };
    let issues = validate_clobs_in_workdir(&vec![added, modified, gone, other, weird, entry("r/e.txt")]);
    assert_eq!(
        issues,
        vec![
            ClobValidationIssue::AddedInWorkdir { path: "r/a.txt".to_string() },
            ClobValidationIssue::UpdatedInWorkdir { path: "r/b.txt".to_string() },
            ClobValidationIssue::DeletedInWorkdir { path: "r/c.txt".to_string() },
            ClobValidationIssue::InvalidPath { path: "r/é.txt".as_bytes().to_vec() },
        ]
    );
}

#[test]
fn staged_changes_are_listed() {
    let mut added = entry("r/a.txt");
    added.flags.index_new = true;
    let mut modified = entry("r/b.txt");
    modified.flags.index_typechange = true;
    let mut gone = entry("r/c.txt");
    gone.flags.index_deleted = true;
    let mut weird = StatusEntry { path: Some("r/é.txt".to_string()), path_bytes: "r/é.txt".as_bytes().to_vec(), flags: StatusFlags::default() };
    weird.flags.index_new = true;
    let staged = get_staged_clobs(&vec![added, modified, gone, weird]);
    assert_eq!(
        staged,
        vec![
            ClobDiff::Add { clob: Clob { path: "r/a.txt".to_string(), content: String::new() } },
            ClobDiff::Update { clob: Clob { path: "r/b.txt".to_string(), content: String::new() } },
            ClobDiff::Delete { path: "r/c.txt".to_string() },
        ]
    );
}
