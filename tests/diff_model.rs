use gitu_core::bytes::push_decimal;
use gitu_core::diff::{DiffLine, Hunk, Origin};

fn line(origin: Origin, text: &str) -> DiffLine {
    DiffLine { origin, text: text.as_bytes().to_vec() }
}

fn added_hunk() -> Hunk {
    Hunk {
        old_file: b"a.txt".to_vec(),
        new_file: b"a.txt".to_vec(),
        old_start: 9,
        old_count: 0,
        new_start: 10,
        new_count: 2,
        lines: vec![line(Origin::Addition, "one"), line(Origin::Addition, "two")],
    }
}

#[test]
fn patch_of_added_lines() {
    let patch = added_hunk().format_patch();
    assert_eq!(
        String::from_utf8(patch).unwrap(),
        "--- a/a.txt\n+++ b/a.txt\n@@ -9,0 +10,2 @@\n+one\n+two\n"
    );
}

#[test]
fn patch_keeps_markers_and_text() {
    let h = Hunk {
        old_file: b"src/x.rs".to_vec(),
        new_file: b"src/y.rs".to_vec(),
        old_start: 3,
        old_count: 3,
        new_start: 3,
        new_count: 3,
        lines: vec![
            line(Origin::Context, "fn f() {"),
            line(Origin::Deletion, "    old();"),
            line(Origin::Addition, "    new();"),
            line(Origin::Context, "}"),
        ],
    };
    assert_eq!(
        String::from_utf8(h.format_patch()).unwrap(),
        "--- a/src/x.rs\n+++ b/src/y.rs\n@@ -3,3 +3,3 @@\n fn f() {\n-    old();\n+    new();\n }\n"
    );
}

#[test]
fn patch_counts_come_from_emitted_lines() {
    let mut h = added_hunk();
    h.old_count = 7;
    h.new_count = 7;
    let text = String::from_utf8(h.format_patch()).unwrap();
    assert!(text.contains("@@ -9,0 +10,2 @@\n"));
}

#[test]
fn patch_of_empty_hunk() {
    let mut h = added_hunk();
    h.lines.clear();
    assert_eq!(
        String::from_utf8(h.format_patch()).unwrap(),
        "--- a/a.txt\n+++ b/a.txt\n@@ -9,0 +10,0 @@\n"
    );
}

#[test]
fn decimal_digits() {
    let mut out = b"x".to_vec();
    push_decimal(&mut out, 0);
    push_decimal(&mut out, 10);
    push_decimal(&mut out, 18446744073709551615);
    assert_eq!(String::from_utf8(out).unwrap(), "x01018446744073709551615");
}

use gitu_core::diff::{parse_diff, parse_hunk_header, DeltaStatus};

#[test]
fn parse_reads_back_a_patch() {
    let h = added_hunk();
    let ds = parse_diff(&h.format_patch());
    assert_eq!(ds.len(), 1);
    assert_eq!(ds[0].old_file, b"a.txt".to_vec());
    assert_eq!(ds[0].new_file, b"a.txt".to_vec());
    assert_eq!(ds[0].status, DeltaStatus::Modified);
    assert_eq!(ds[0].hunks.len(), 1);
    let p = &ds[0].hunks[0];
    assert_eq!((p.old_start, p.old_count, p.new_start, p.new_count), (9, 0, 10, 2));
    assert_eq!(p.lines.len(), 2);
    assert_eq!(p.lines[1].origin, Origin::Addition);
    assert_eq!(p.lines[1].text, b"two".to_vec());
    assert_eq!(p.format_patch(), h.format_patch());
}

#[test]
fn parse_git_diff_output() {
    let text = "diff --git a/x.rs b/x.rs\nindex 1..2 100644\n--- a/x.rs\n+++ b/x.rs\n@@ -1,3 +1,3 @@ fn main\n a\n-b\n+B\n c\n@@ -10 +10,2 @@\n k\n+l\ndiff --git a/n.txt b/n.txt\nnew file mode 100644\n--- /dev/null\n+++ b/n.txt\n@@ -0,0 +1 @@\n+hello\n\\ No newline at end of file\n";
    let ds = parse_diff(&text.as_bytes().to_vec());
    assert_eq!(ds.len(), 2);
    assert_eq!(ds[0].hunks.len(), 2);
    assert_eq!(ds[0].hunks[0].lines.len(), 4);
    assert_eq!(ds[0].hunks[1].old_count, 1);
    assert_eq!(ds[0].hunks[1].new_count, 2);
    assert_eq!(ds[1].status, DeltaStatus::Added);
    assert_eq!(ds[1].old_file, b"/dev/null".to_vec());
    assert_eq!(ds[1].hunks[0].new_file, b"n.txt".to_vec());
    assert_eq!(ds[1].hunks[0].lines.len(), 1);
}

#[test]
fn malformed_diff_gives_no_deltas() {
    let short = "--- a/x\n+++ b/x\n@@ -1,2 +1,2 @@\n a\n";
    assert!(parse_diff(&short.as_bytes().to_vec()).is_empty());
    let bad_header = "--- a/x\n+++ b/x\n@@ -x +1 @@\n";
    assert!(parse_diff(&bad_header.as_bytes().to_vec()).is_empty());
    let stray = "--- a/x\n+++ b/x\n@@ -1 +1 @@\n?odd\n";
    assert!(parse_diff(&stray.as_bytes().to_vec()).is_empty());
    assert!(parse_diff(&Vec::new()).is_empty());
}

#[test]
fn hunk_header_numbers() {
    assert_eq!(parse_hunk_header(&b"@@ -9,0 +10,2 @@".to_vec()), Some((9, 0, 10, 2)));
    assert_eq!(parse_hunk_header(&b"@@ -3 +4 @@ fn x".to_vec()), Some((3, 1, 4, 1)));
    assert_eq!(parse_hunk_header(&b"@@ -3 +4".to_vec()), None);
    assert_eq!(parse_hunk_header(&b"@@ -99999999999999999999,1 +1 @@".to_vec()), None);
}
