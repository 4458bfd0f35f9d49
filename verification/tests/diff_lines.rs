use nudge::diff::{changed_lines, hunk_header_at, DiffError};
use nudge::lines::{ChangedLines, Hunk, LineRange};

fn lines_of(changed: &ChangedLines, upto: usize) -> Vec<usize> {
    (0..=upto).filter(|line| changed.contains(*line)).collect()
}

fn changed(text: &str) -> ChangedLines {
    changed_lines(text.as_bytes()).expect("numbers fit")
}

#[test]
fn header_with_start_and_length() {
    let lines = changed("@@ -10,2 +12,3 @@ fn f()\n");
    assert_eq!(lines.hunks, vec![Hunk { start: 12, len: 3 }]);
    assert_eq!(lines_of(&lines, 40), vec![12, 13, 14]);
}

#[test]
fn omitted_length_counts_one_line() {
    let lines = changed("@@ -7 +9 @@\n");
    assert_eq!(lines.hunks, vec![Hunk { start: 9, len: 1 }]);
    assert_eq!(lines_of(&lines, 40), vec![9]);
}

#[test]
fn omitted_old_length_only() {
    let lines = changed("@@ -7 +9,2 @@\n");
    assert_eq!(lines_of(&lines, 40), vec![9, 10]);
}

#[test]
fn omitted_new_length_only() {
    let lines = changed("@@ -7,4 +9 @@\n");
    assert_eq!(lines_of(&lines, 40), vec![9]);
}

#[test]
fn pure_deletion_changes_no_line() {
    let lines = changed("@@ -5,2 +4,0 @@\n");
    assert_eq!(lines.hunks, vec![Hunk { start: 4, len: 0 }]);
    assert_eq!(lines_of(&lines, 40), Vec::<usize>::new());
    assert!(!lines.contains(4));
    assert!(!lines.intersects(&LineRange { start: 1, end: 40 }));
}

#[test]
fn union_of_all_hunks() {
    let text = "diff --git a/f.rs b/f.rs\n\
                index 1111111..2222222 100644\n\
                --- a/f.rs\n\
                +++ b/f.rs\n\
                @@ -2 +2 @@ fn a()\n\
                -old\n\
                +new\n\
                @@ -10,0 +11,2 @@\n\
                +x\n\
                +y\n\
                @@ -20,3 +22,0 @@\n\
                -gone\n";
    let lines = changed(text);
    assert_eq!(lines_of(&lines, 60), vec![2, 11, 12]);
}

#[test]
fn overlapping_hunks_are_a_union() {
    let lines = changed("@@ -1 +3,4 @@\n@@ -1 +5,4 @@\n");
    assert_eq!(lines_of(&lines, 60), vec![3, 4, 5, 6, 7, 8]);
}

#[test]
fn header_must_open_its_line() {
    assert_eq!(lines_of(&changed(" @@ -1 +2 @@\n"), 20), Vec::<usize>::new());
    assert_eq!(lines_of(&changed("+@@ -1 +2 @@\n"), 20), Vec::<usize>::new());
    assert_eq!(lines_of(&changed("x\n@@ -1 +2 @@\n"), 20), vec![2]);
}

#[test]
fn header_on_last_line_without_newline() {
    assert_eq!(lines_of(&changed("x\n@@ -1 +6,2 @@"), 20), vec![6, 7]);
}

#[test]
fn carriage_return_does_not_open_a_line() {
    assert_eq!(lines_of(&changed("x\r@@ -1 +2 @@\n"), 20), Vec::<usize>::new());
}

#[test]
fn malformed_headers_are_ignored() {
    for text in [
        "",
        "\n",
        "@@",
        "@@ -1 +2",
        "@@ -1 +2 @",
        "@@ -1 +2@@",
        "@@ -1 2 @@",
        "@@ 1 +2 @@",
        "@@ - +2 @@",
        "@@ -1 + @@",
        "@@ -1, +2 @@",
        "@@ -1 +2, @@",
        "@@ -1,2,3 +4 @@",
        "@@ -1 +4,5,6 @@",
        "@@ -1  +2 @@",
        "@@  -1 +2 @@",
        "@@ -a +2 @@",
        "@@ -1 +-2 @@",
        "@ -1 +2 @@",
    ] {
        assert_eq!(hunk_header_at(text.as_bytes(), 0), Ok(None), "{}", text);
        assert_eq!(lines_of(&changed(text), 20), Vec::<usize>::new(), "{}", text);
    }
}

#[test]
fn leading_zeros_are_digits() {
    assert_eq!(
        hunk_header_at(b"@@ -001,02 +0012,003 @@", 0),
        Ok(Some(Hunk { start: 12, len: 3 }))
    );
}

#[test]
fn header_at_an_offset() {
    let text = b"ab@@ -1 +30,2 @@";
    assert_eq!(hunk_header_at(text, 2), Ok(Some(Hunk { start: 30, len: 2 })));
    assert_eq!(hunk_header_at(text, 0), Ok(None));
    assert_eq!(hunk_header_at(text, 3), Ok(None));
    assert_eq!(hunk_header_at(text, text.len()), Ok(None));
    assert_eq!(hunk_header_at(text, text.len() + 5), Ok(None));
    assert_eq!(hunk_header_at(text, usize::MAX), Ok(None));
}

#[test]
fn largest_line_number_fits() {
    let text = format!("@@ -1 +{},{} @@", usize::MAX, usize::MAX);
    assert_eq!(
        hunk_header_at(text.as_bytes(), 0),
        Ok(Some(Hunk { start: usize::MAX, len: usize::MAX }))
    );
    let lines = changed(&text);
    assert!(lines.contains(usize::MAX));
    assert!(!lines.contains(usize::MAX - 1));
    assert!(lines.intersects(&LineRange { start: 1, end: usize::MAX }) == false);
}

#[test]
fn start_beyond_usize_is_an_error() {
    let text = format!("@@ -1 +{}0 @@\n", usize::MAX);
    assert_eq!(hunk_header_at(text.as_bytes(), 0), Err(DiffError::LineNumberTooLarge));
    assert_eq!(changed_lines(text.as_bytes()), Err(DiffError::LineNumberTooLarge));
}

#[test]
fn length_beyond_usize_is_an_error() {
    let text = "@@ -1 +2,99999999999999999999999999999999999999999 @@\n";
    assert_eq!(changed_lines(text.as_bytes()), Err(DiffError::LineNumberTooLarge));
}

#[test]
fn old_side_numbers_may_be_of_any_size() {
    let text = "@@ -99999999999999999999999999999999999999999,99999999999999999999999999999999999999999 +2 @@\n";
    assert_eq!(lines_of(&changed(text), 20), vec![2]);
}

#[test]
fn oversized_number_in_a_later_header() {
    let text = "@@ -1 +2 @@\n@@ -1 +99999999999999999999999999999999999999999 @@\n";
    assert_eq!(changed_lines(text.as_bytes()), Err(DiffError::LineNumberTooLarge));
}

#[test]
fn oversized_number_off_the_line_start_is_ignored() {
    let text = "x@@ -1 +99999999999999999999999999999999999999999 @@\n@@ -1 +2 @@\n";
    assert_eq!(lines_of(&changed(text), 20), vec![2]);
}

#[test]
fn non_ascii_text_is_passed_over() {
    let text = "+caf\u{e9} \u{663}\n@@ -1 +\u{663} @@\n@@ -1 +5 @@ caf\u{e9}\n";
    assert_eq!(lines_of(&changed(text), 20), vec![5]);
}

#[test]
fn changed_lines_set_operations() {
    let mut lines = ChangedLines::new();
    assert!(!lines.contains(1));
    lines.insert_line(4);
    lines.insert(Hunk { start: 10, len: 3 });
    lines.insert(Hunk { start: 20, len: 0 });
    assert_eq!(lines_of(&lines, 40), vec![4, 10, 11, 12]);
    assert!(lines.intersects(&LineRange { start: 1, end: 5 }));
    assert!(!lines.intersects(&LineRange { start: 1, end: 4 }));
    assert!(!lines.intersects(&LineRange { start: 5, end: 10 }));
    assert!(lines.intersects(&LineRange { start: 12, end: 13 }));
    assert!(!lines.intersects(&LineRange { start: 13, end: 30 }));
    assert!(!lines.intersects(&LineRange { start: 11, end: 11 }));
    assert!(!lines.intersects(&LineRange { start: 12, end: 10 }));
}

#[test]
fn hunk_covers_its_lines_only() {
    let hunk = Hunk { start: 3, len: 2 };
    assert!(!hunk.contains(2));
    assert!(hunk.contains(3));
    assert!(hunk.contains(4));
    assert!(!hunk.contains(5));
    assert!(hunk.intersects(&LineRange { start: 4, end: 9 }));
    assert!(hunk.intersects(&LineRange { start: 1, end: 4 }));
    assert!(!hunk.intersects(&LineRange { start: 1, end: 3 }));
    assert!(!hunk.intersects(&LineRange { start: 5, end: 9 }));
    let last = Hunk { start: usize::MAX, len: 5 };
    assert!(last.contains(usize::MAX));
    assert!(last.intersects(&LineRange { start: 1, end: usize::MAX }) == false);
}

#[test]
fn line_range_construction() {
    assert_eq!(LineRange::new(1, 2), Some(LineRange { start: 1, end: 2 }));
    assert_eq!(LineRange::new(3, 9), Some(LineRange { start: 3, end: 9 }));
    assert_eq!(LineRange::new(0, 2), None);
    assert_eq!(LineRange::new(2, 2), None);
    assert_eq!(LineRange::new(3, 2), None);
    let range = LineRange { start: 3, end: 5 };
    assert!(!range.contains(2));
    assert!(range.contains(3));
    assert!(range.contains(4));
    assert!(!range.contains(5));
}

fn hunks_by_pattern(text: &str) -> Vec<Hunk> {
    let pattern =
        lazy_regex::Regex::new(r"(?m)^@@ \-\d+(?:,\d+)? \+(\d+)(?:,(\d+))? @@").expect("pattern");
    pattern
        .captures_iter(text)
        .map(|capture| Hunk {
            start: capture.get(1).expect("start").as_str().parse().expect("number"),
            len: capture.get(2).map_or(1, |len| len.as_str().parse().expect("number")),
        })
        .collect()
}

#[test]
fn agrees_with_the_header_pattern() {
    for text in [
        "@@ -1 +2 @@\n",
        "@@ -1,2 +3,4 @@ context\n+a\n+b\n@@ -9 +11,0 @@\n",
        "--- a\n+++ b\n@@ -3,0 +4 @@\n+@@ -1 +1 @@\n",
        "@@ -1 +2 @@@@ -3 +4 @@\n@@ -5 +6 @@",
        "\n\n@@ -0,0 +1,25 @@\n",
        "@@ -1 +2 @\n@@ -1 +2,3 @@\n",
        "text without any header\n",
    ] {
        assert_eq!(changed(text).hunks, hunks_by_pattern(text), "{}", text);
    }
}

#[test]
fn diff_tool_arguments() {
    assert_eq!(nudge::diff::diff_arguments("HEAD~"), vec!["diff", "-U0", "HEAD~"]);
    assert_eq!(nudge::diff::diff_arguments("v1..v2"), vec!["diff", "-U0", "v1..v2"]);
}
