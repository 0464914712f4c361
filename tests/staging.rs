use git_toolbox::clob::{Clob, ClobDiff, ClobValidationIssue, DiffStats};
use git_toolbox::issue::{sort_issues, ToolboxFileIssue};
use git_toolbox::reset;
use git_toolbox::scanner::Line;
use git_toolbox::stage::{check_external_changes, StagedFileSummary};
use git_toolbox::staging::{cleanup_candidates, parent_dir, staging_plan, StagingAction};
use git_toolbox::status;

fn update(path: &str, content: &str) -> ClobDiff {
    ClobDiff::Update { clob: Clob { path: path.to_string(), content: content.to_string() } }
}

fn summary(diffs: Vec<ClobDiff>, issues: Vec<ClobValidationIssue>) -> StagedFileSummary {
    StagedFileSummary {
        display_name: "Lex.txt".to_string(),
        path: "Lex.txt".to_string(),
        contents_path: "Lex.txt.contents".to_string(),
        unstaged_diff: diffs,
        workdir_issues: issues,
        toolbox_issues: vec![],
    }
}

#[test]
fn outside_edit_blocks_staging_unless_discarded() {
    let p = "Lex.txt.contents/ap/pl/apple.txt";
    let s = summary(
        vec![update(p, "\\lx apple\n")],
        vec![ClobValidationIssue::UpdatedInWorkdir { path: p.to_string() }],
    );
    assert!(s.any_workdir_issues());
    assert!(s.workdir_changes_will_be_lost());
    let all = vec![s];
    assert_eq!(check_external_changes(&all, false), Err(vec!["Lex.txt.contents".to_string()]));
    assert_eq!(check_external_changes(&all, true), Ok(()));
    let plan = staging_plan(&all[0].unstaged_diff);
    assert_eq!(plan, vec![StagingAction::Write { path: p.to_string(), content: "\\lx apple\n".to_string() }]);
}

#[test]
fn unrelated_outside_edit_does_not_block() {
    let s = summary(
        vec![update("r/a.txt", "x")],
        vec![ClobValidationIssue::AddedInWorkdir { path: "r/b.txt".to_string() }],
    );
    assert!(!s.workdir_changes_will_be_lost());
    assert!(s.any_unstaged());
    assert!(!s.any_toolbox_issues());
    assert_eq!(check_external_changes(&vec![s], false), Ok(()));
}

#[test]
fn plan_follows_the_changes() {
    let diffs = vec![
        ClobDiff::Add { clob: Clob { path: "r/a.txt".to_string(), content: "A".to_string() } },
        ClobDiff::Delete { path: "r/x/b.txt".to_string() },
    ];
    assert_eq!(
        staging_plan(&diffs),
        vec![
            StagingAction::Write { path: "r/a.txt".to_string(), content: "A".to_string() },
            StagingAction::Remove { path: "r/x/b.txt".to_string() },
        ]
    );
}

#[test]
fn parents_and_cleanup() {
    assert_eq!(parent_dir("a/b/c.txt"), Some("a/b".to_string()));
    assert_eq!(parent_dir("c.txt"), Some(String::new()));
    assert_eq!(parent_dir(""), None);
    let paths = vec!["r/x/a.txt".to_string(), "r/x/b.txt".to_string(), "top.txt".to_string(), "r/y/c.txt".to_string()];
    assert_eq!(cleanup_candidates(&paths), vec!["r/x".to_string(), "r/y".to_string()]);
    assert_eq!(cleanup_candidates(&vec!["r/x".to_string()]), vec!["r".to_string()]);
    assert_eq!(cleanup_candidates(&vec!["r".to_string()]), Vec::<String>::new());
}

#[test]
fn stats_count_each_kind() {
    let diffs = vec![
        ClobDiff::Add { clob: Clob { path: "a.txt".to_string(), content: String::new() } },
        ClobDiff::Add { clob: Clob { path: "b.txt".to_string(), content: String::new() } },
        update("c.txt", ""),
        ClobDiff::Delete { path: "d.txt".to_string() },
    ];
    let st = DiffStats::count(&diffs);
    assert_eq!(st, DiffStats { added: 2, changed: 1, deleted: 1 });
    assert!(!st.no_changes());
    assert!(DiffStats::count(&[]).no_changes());
    let r = reset::ManagedFileSummary {
        display_name: "Lex.txt".to_string(),
        path: "Lex.txt".to_string(),
        contents_path: "Lex.txt.contents".to_string(),
        unstaged_diff: diffs,
        toolbox_issues: vec![ToolboxFileIssue::MissingDictionaryHeader { line: 3 }],
    };
    assert_eq!(r.restore_stats(), DiffStats { added: 1, changed: 1, deleted: 2 });
    assert!(r.missing_header());
    assert!(r.any_unstaged());
}

#[test]
fn status_summary() {
    let s = status::ManagedFileSummary {
        display_name: "Lex.txt".to_string(),
        contents_path: "Lex.txt.contents".to_string(),
        unstaged_diff: vec![update("a.txt", "")],
        staged_diff: vec![],
        workdir_issues: vec![],
        toolbox_issues: vec![],
    };
    assert!(s.any_unstaged());
    assert!(!s.any_staged());
    assert!(!s.any_workdir_issues());
    assert!(!s.any_toolbox_issues());
    assert_eq!(s.unstaged_diff_stats(), DiffStats { added: 0, changed: 1, deleted: 0 });
    assert_eq!(s.staged_diff_stats(), DiffStats { added: 0, changed: 0, deleted: 0 });
}

#[test]
fn issues_sort_by_line() {
    let l = |n: usize| Line { line: n, text: String::new() };
    let sorted = sort_issues(vec![
        ToolboxFileIssue::UntaggedLine { line: l(5) },
        ToolboxFileIssue::MissingID { line: l(2) },
        ToolboxFileIssue::MissingDictionaryHeader { line: 0 },
        ToolboxFileIssue::UntaggedLine { line: l(2) },
    ]);
    let lines: Vec<usize> = sorted.iter().map(|i| i.line()).collect();
    assert_eq!(lines, vec![0, 2, 2, 5]);
    assert_eq!(sorted[1], ToolboxFileIssue::MissingID { line: l(2) });
}
