use cargo_scout::changes::ChangeSet;
use cargo_scout::clippy::{findings_from_lints, lints_with_spans, record_lines, Lint, Message, Span};
use cargo_scout::diff::{parse_diff, parse_hunk_header, split_lines, HunkHeader};
use cargo_scout::intersect::{filter, is_in_diff, path_matches, Finding};

fn finding(path: &str, start: u64, end: u64) -> Finding {
    Finding { path: path.to_string(), start, end, message: String::from("m") }
}

fn lines_of(cs: &ChangeSet, path: &str) -> Option<Vec<u64>> {
    cs.find(path.as_bytes()).map(|k| cs.files[k].lines.clone())
}

fn one_file(path: &str, lines: &[u64]) -> ChangeSet {
    let mut cs = ChangeSet::new();
    for l in lines {
        cs.add_line(path.as_bytes(), *l);
    }
    cs
}

#[test]
fn hunk_body_records_added_lines() {
    let diff = "diff --git a/src/a.rs b/src/a.rs\n--- a/src/a.rs\n+++ b/src/a.rs\n@@ -10,3 +10,4 @@\n ctx\n-old\n+new1\n+new2\n ctx2\n";
    let cs = parse_diff(diff);
    assert_eq!(cs.files.len(), 1);
    assert_eq!(lines_of(&cs, "src/a.rs"), Some(vec![11, 12]));
}

#[test]
fn hunk_header_numbers() {
    assert_eq!(
        parse_hunk_header(b"@@ -10,3 +10,4 @@"),
        Some(HunkHeader { old_start: 10, old_len: 3, new_start: 10, new_len: 4 })
    );
    assert_eq!(
        parse_hunk_header(b"@@ -1,0 +2,7 @@ fn main()"),
        Some(HunkHeader { old_start: 1, old_len: 0, new_start: 2, new_len: 7 })
    );
    assert_eq!(parse_hunk_header(b"@@ -10 +10 @@"), None);
    assert_eq!(parse_hunk_header(b"@@ -1,2 +0,3 @@"), None);
    assert_eq!(parse_hunk_header(b"@@ -1,2 +18446744073709551615,3 @@"), None);
    assert_eq!(parse_hunk_header(b"@@ -1,2 +99999999999999999999,3 @@"), None);
}

#[test]
fn malformed_hunk_header_drops_only_that_file() {
    let diff = "--- a/x.rs\n+++ b/x.rs\n@@ -1,1 +1,2 @@\n a\n+b\n--- a/y.rs\n+++ b/y.rs\n@@ -1,x +1,2 @@\n+c\n--- a/z.rs\n+++ b/z.rs\n@@ -3,0 +4,1 @@\n+d\n";
    let cs = parse_diff(diff);
    assert_eq!(lines_of(&cs, "x.rs"), Some(vec![2]));
    assert_eq!(lines_of(&cs, "y.rs"), None);
    assert_eq!(lines_of(&cs, "z.rs"), Some(vec![4]));
}

#[test]
fn deleted_file_has_no_entry() {
    let diff = "diff --git a/gone.rs b/gone.rs\ndeleted file mode 100644\n--- a/gone.rs\n+++ /dev/null\n@@ -1,2 +0,0 @@\n-a\n-b\n";
    let cs = parse_diff(diff);
    assert_eq!(cs.files.len(), 0);
}

#[test]
fn added_lines_that_look_like_headers() {
    let diff = "--- a/f.rs\n+++ b/f.rs\n@@ -1,1 +1,3 @@\n+++ b/other.rs\n+--- x\n a\n\\ No newline at end of file\n";
    let cs = parse_diff(diff);
    assert_eq!(lines_of(&cs, "f.rs"), Some(vec![1, 2]));
    assert_eq!(lines_of(&cs, "other.rs"), None);
}

#[test]
fn two_hunks_in_one_file() {
    let diff = "+++ b/f.rs\n@@ -1,1 +1,2 @@\n+a\n b\n@@ -20,1 +21,1 @@\n-c\n+d\n";
    let cs = parse_diff(diff);
    assert_eq!(lines_of(&cs, "f.rs"), Some(vec![1, 21]));
}

#[test]
fn empty_diff_gives_empty_change_set() {
    assert_eq!(parse_diff("").files.len(), 0);
}

#[test]
fn lines_split_at_newlines() {
    let lines = split_lines(b"a\n\nbc");
    assert_eq!(lines, vec![b"a".to_vec(), Vec::new(), b"bc".to_vec()]);
    assert_eq!(split_lines(b"a\n"), vec![b"a".to_vec()]);
}

#[test]
fn change_set_keeps_lines_sorted_and_unique() {
    let cs = one_file("f.rs", &[5, 3, 9, 3, 1]);
    assert_eq!(lines_of(&cs, "f.rs"), Some(vec![1, 3, 5, 9]));
}

#[test]
fn suffix_path_matching() {
    assert!(path_matches("src/lib.rs", b"crate-a/src/lib.rs"));
    assert!(path_matches("lib.rs", b"other/lib.rs"));
    assert!(!path_matches("lib.rs", b"otherlib.rs"));
    assert!(path_matches("lib.rs", b"lib.rs"));
    assert!(path_matches("crate-a/src/lib.rs", b"src/lib.rs"));
    assert!(!path_matches("rc/lib.rs", b"src/lib.rs"));
    assert!(path_matches("src\\lib.rs", b"crate-a/src/lib.rs"));
    assert!(!path_matches("Src/lib.rs", b"src/lib.rs"));
}

#[test]
fn end_to_end_filter() {
    let cs = one_file("src/a.rs", &[10, 11, 12]);
    let findings = vec![finding("a.rs", 10, 12), finding("a.rs", 1, 5), finding("b.rs", 1, 3)];
    let kept = filter(&cs, &findings);
    assert_eq!(kept, vec![finding("a.rs", 10, 12)]);
}

#[test]
fn file_without_entry_is_dropped() {
    let cs = one_file("src/a.rs", &[1, 2, 3]);
    assert!(filter(&cs, &[finding("src/b.rs", 1, 3)]).is_empty());
    assert!(filter(&ChangeSet::new(), &[finding("src/a.rs", 1, 3)]).is_empty());
}

#[test]
fn kept_iff_range_meets_changed_lines() {
    let cs = one_file("src/m.rs", &[4, 8, 15]);
    let cases: [(u64, u64, bool); 8] = [
        (4, 4, true),
        (5, 7, false),
        (1, 3, false),
        (7, 8, true),
        (9, 14, false),
        (15, 100, true),
        (16, 16, false),
        (1, 100, true),
    ];
    for (s, e, expected) in cases {
        assert_eq!(is_in_diff(&cs, &finding("src/m.rs", s, e)), expected, "range {}..={}", s, e);
        assert_eq!(filter(&cs, &[finding("src/m.rs", s, e)]).len(), expected as usize);
    }
}

#[test]
fn repeated_filter_is_identical() {
    let cs = one_file("src/a.rs", &[2, 30]);
    let findings = vec![finding("src/a.rs", 1, 2), finding("src/a.rs", 3, 29), finding("src/a.rs", 30, 30)];
    let first = filter(&cs, &findings);
    let second = filter(&cs, &findings);
    assert_eq!(first, second);
    assert_eq!(filter(&cs, &first), first);
    assert_eq!(findings.len(), 3);
}

fn span(file: &str, start: i32, end: i32) -> Span {
    Span { file_name: file.to_string(), line_start: start, line_end: end }
}

#[test]
fn two_spans_keep_only_the_changed_one() {
    let lint = Lint {
        package_id: String::from("p"),
        src_path: None,
        message: Some(Message {
            rendered: String::from("unused variable"),
            spans: vec![span("src/a.rs", 10, 10), span("src/a.rs", 40, 41)],
        }),
    };
    let findings = findings_from_lints(&[lint]);
    assert_eq!(findings.len(), 2);
    let cs = one_file("src/a.rs", &[10]);
    let kept = filter(&cs, &findings);
    assert_eq!(
        kept,
        vec![Finding {
            path: String::from("src/a.rs"),
            start: 10,
            end: 10,
            message: String::from("unused variable")
        }]
    );
}

#[test]
fn malformed_spans_are_skipped() {
    let lint = Lint {
        package_id: String::from("p"),
        src_path: None,
        message: Some(Message {
            rendered: String::from("r"),
            spans: vec![span("a.rs", 0, 2), span("a.rs", 5, 4), span("a.rs", 3, 3)],
        }),
    };
    let no_message = Lint { package_id: String::from("q"), src_path: None, message: None };
    let findings = findings_from_lints(&[no_message, lint]);
    assert_eq!(findings, vec![Finding { path: String::from("a.rs"), start: 3, end: 3, message: String::from("r") }]);
}

#[test]
fn lints_without_places_are_dropped() {
    let with = Lint {
        package_id: String::from("a"),
        src_path: None,
        message: Some(Message { rendered: String::from("r"), spans: vec![span("x.rs", 1, 1)] }),
    };
    let empty = Lint {
        package_id: String::from("b"),
        src_path: None,
        message: Some(Message { rendered: String::from("r"), spans: Vec::new() }),
    };
    let none = Lint { package_id: String::from("c"), src_path: None, message: None };
    let kept = lints_with_spans(vec![empty, with, none]);
    assert_eq!(kept.len(), 1);
    assert_eq!(kept[0].package_id, "a");
}

#[test]
fn only_brace_lines_are_records() {
    let out = "   Compiling x\n{\"a\":1}\nwarning\n{}\n";
    assert_eq!(record_lines(out), vec![b"{\"a\":1}".to_vec(), b"{}".to_vec()]);
}

use cargo_scout::rustfmt::{display_missmatch, fmt_findings, FmtLint, FmtMismatch};

fn mismatch(begin: u32, end: u32, original: &str, expected: &str) -> FmtMismatch {
    FmtMismatch {
        original_begin_line: begin,
        original_end_line: end,
        original: original.to_string(),
        expected: expected.to_string(),
    }
}

#[test]
fn single_line_mismatch_message() {
    assert_eq!(
        display_missmatch(&mismatch(7, 7, "let x=1;", "let x = 1;"), "src/a.rs"),
        "Diff in src/a.rs at line 7: \n-let x=1;\n+let x = 1;\n"
    );
}

#[test]
fn multi_line_mismatch_message() {
    assert_eq!(
        display_missmatch(&mismatch(120, 123, "a\r\nb\n", "c\nd\ne"), "m.rs"),
        "Diff in m.rs between lines 120 and 123: \n-a\n-b\n+c\n+d\n+e\n"
    );
}

#[test]
fn one_finding_per_mismatch() {
    let lints = vec![
        FmtLint { name: String::from("a.rs"), mismatches: vec![mismatch(1, 1, "x", "y"), mismatch(4, 5, "p\nq", "r")] },
        FmtLint { name: String::from("b.rs"), mismatches: Vec::new() },
        FmtLint { name: String::from("c.rs"), mismatches: vec![mismatch(9, 9, "", "z")] },
    ];
    let findings = fmt_findings(&lints);
    let places: Vec<(String, u64, u64)> = findings.iter().map(|f| (f.path.clone(), f.start, f.end)).collect();
    assert_eq!(
        places,
        vec![(String::from("a.rs"), 1, 1), (String::from("a.rs"), 4, 5), (String::from("c.rs"), 9, 9)]
    );
    assert_eq!(findings[1].message, "Diff in a.rs between lines 4 and 5: \n-p\n-q\n+r\n");
}
