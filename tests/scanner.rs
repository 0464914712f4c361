use git_toolbox::scanner::{trim_trailing_empty_lines, Line, ParsedLine, Scanner, Token};

#[test]
fn test_line() {
    assert_eq!(ParsedLine::from(r"\tag value"), ParsedLine::Tagged(r"\tag".to_string(), r" value".to_string()));
    assert_eq!(ParsedLine::from(r"\tag   value  "), ParsedLine::Tagged(r"\tag".to_string(), r"   value  ".to_string()));
    assert_eq!(ParsedLine::from(r"value"), ParsedLine::Untagged(r"value".to_string()));
    assert_eq!(ParsedLine::from(r"  value  "), ParsedLine::Untagged(r"  value  ".to_string()));
    assert_eq!(ParsedLine::from(r"    "), ParsedLine::Blank);
}

#[test]
fn test_trim_trailing_empty_lines() {
    assert_eq!(trim_trailing_empty_lines(""), "");
    assert_eq!(trim_trailing_empty_lines("test1"), "test1");
    assert_eq!(trim_trailing_empty_lines("test1\n"), "test1\n");
    assert_eq!(trim_trailing_empty_lines("test1\r\n"), "test1\r\n");
    assert_eq!(trim_trailing_empty_lines("test1\n\n"), "test1\n");
    assert_eq!(trim_trailing_empty_lines("test1\r\n\r\n"), "test1\r\n");
}

#[test]
fn trim_keeps_inner_blank_lines_and_drops_white_tails() {
    assert_eq!(trim_trailing_empty_lines("a\n\nb\n  \n\t\n"), "a\n\nb\n");
    assert_eq!(trim_trailing_empty_lines("   "), "");
    assert_eq!(trim_trailing_empty_lines("a\n  "), "a\n");
}

#[test]
fn parsed_line_tag_without_value() {
    assert_eq!(ParsedLine::from(r"\lx"), ParsedLine::Tagged(r"\lx".to_string(), String::new()));
    assert_eq!(ParsedLine::from(""), ParsedLine::Blank);
}

fn line(n: usize, t: &str) -> Line {
    Line { line: n, text: t.to_string() }
}

fn all_tokens(mut s: Scanner) -> Vec<(Line, Token)> {
    let mut out = Vec::new();
    while let Some(item) = s.next() {
        out.push(item);
    }
    out
}

#[test]
fn scanner_emits_record_boundaries_in_order() {
    let text = "orphan\n\\lx a\n\\ge x\n\n\\lx b\r\nbare\n";
    let toks = all_tokens(Scanner::from(text, r"\lx"));
    let expected = vec![
        (line(0, "orphan"), Token::Untagged { text: "orphan".to_string() }),
        (line(1, r"\lx a"), Token::RecordBegin),
        (line(1, r"\lx a"), Token::Tagged { tag: r"\lx".to_string(), text: " a".to_string() }),
        (line(2, r"\ge x"), Token::Tagged { tag: r"\ge".to_string(), text: " x".to_string() }),
        (line(3, ""), Token::Blank),
        (line(4, r"\lx b"), Token::RecordEnd { body: "\\lx a\n\\ge x\n".to_string() }),
        (line(4, r"\lx b"), Token::RecordBegin),
        (line(4, r"\lx b"), Token::Tagged { tag: r"\lx".to_string(), text: " b".to_string() }),
        (line(5, "bare"), Token::Untagged { text: "bare".to_string() }),
        (line(5, "bare"), Token::RecordEnd { body: "\\lx b\r\nbare\n".to_string() }),
    ];
    assert_eq!(toks, expected);
}

#[test]
fn scanner_on_empty_text_ends_at_once() {
    let mut s = Scanner::from("", r"\lx");
    assert!(s.next().is_none());
    assert!(s.next().is_none());
}

#[test]
fn header_is_found_after_blank_lines() {
    let text = "\n  \n\\_sh v3.0  400  Dictionary\n\\lx a\n";
    let s = Scanner::from(text, r"\lx").expect_toolbox_dictionary_header().ok().unwrap();
    let toks = all_tokens(s);
    assert_eq!(toks[0], (line(3, r"\lx a"), Token::RecordBegin));
}

#[test]
fn header_mismatch_reports_the_line() {
    let text = "\n\\lx a\n";
    let r = Scanner::from(text, r"\lx").expect_toolbox_dictionary_header();
    assert_eq!(r.err(), Some(1));
    let r = Scanner::from("\\_sh v3.0 x Dictionary\n", r"\lx").expect_toolbox_dictionary_header();
    assert_eq!(r.err(), Some(0));
    let r = Scanner::from("\\_sh\tv3.0 12 Dictionary \t", r"\lx").expect_toolbox_dictionary_header();
    assert!(r.is_ok());
}

#[test]
fn header_missing_in_empty_text() {
    let r = Scanner::from("", r"\lx").expect_toolbox_dictionary_header();
    assert_eq!(r.err(), Some(0));
}
