use unified_diff::change_range::ChangeRange;
use unified_diff::decimal::push_decimal;
use unified_diff::diff_builder::DiffBuilder;
use unified_diff::edit::{EditOperation, Line};
use unified_diff::file::File;

fn file(path: &str, content: &str) -> File {
    File { path: path.to_string(), content: content.to_string() }
}

fn line(number: u64, text: &str) -> Line {
    Line { number, text: text.to_string() }
}

fn delete(number: u64, text: &str) -> EditOperation {
    EditOperation::Delete { old: line(number, text) }
}

fn insert(number: u64, text: &str) -> EditOperation {
    EditOperation::Insert { new: line(number, text) }
}

fn equal(old_number: u64, new_number: u64, text: &str) -> EditOperation {
    EditOperation::Equal { old: line(old_number, text), new: line(new_number, text) }
}

#[test]
fn render_gives_header_range_and_body() {
    let source = file("source.txt", "line1\nline2\nline3\nline4\n");
    let target = file("target.txt", "line1\nline3\n");
    let edits = vec![
        equal(1, 1, "line1"),
        delete(2, "line2"),
        equal(3, 2, "line3"),
        delete(4, "line4"),
    ];
    let result = DiffBuilder::render(&source, &target, &edits);
    assert_eq!(
        result,
        "--- source.txt\n+++ target.txt\n@@ -1,4 +1,2 @@\n line1\n-line2\n line3\n-line4\n"
    );
}

#[test]
fn render_of_an_empty_script_has_zero_ranges_and_no_body() {
    let source = file("a", "");
    let target = file("b", "");
    let result = DiffBuilder::render(&source, &target, &vec![]);
    assert_eq!(result, "--- a\n+++ b\n@@ -0,0 +0,0 @@\n");
}

#[test]
fn render_of_an_empty_script_ignores_the_contents() {
    let source = file("a", "some\ntext");
    let target = file("b", "other\ntext\n");
    let result = DiffBuilder::render(&source, &target, &vec![]);
    assert_eq!(result, "--- a\n+++ b\n@@ -0,0 +0,0 @@\n");
}

#[test]
fn render_of_kept_lines_prefixes_each_with_a_space() {
    let source = file("one", "x\ny\nz\n");
    let target = file("two", "x\ny\nz\n");
    let edits = vec![equal(1, 1, "x"), equal(2, 2, "y"), equal(3, 3, "z")];
    let result = DiffBuilder::render(&source, &target, &edits);
    assert_eq!(result, "--- one\n+++ two\n@@ -1,3 +1,3 @@\n x\n y\n z\n");
    for body_line in result.lines().skip(3) {
        assert!(body_line.starts_with(' '));
    }
}

#[test]
fn render_twice_gives_the_same_text() {
    let source = file("s", "a\nb");
    let target = file("t", "a\nc");
    let edits = vec![equal(1, 1, "a"), delete(2, "b"), insert(2, "c")];
    let first = DiffBuilder::render(&source, &target, &edits);
    let second = DiffBuilder::render(&source, &target, &edits);
    assert_eq!(first, second);
    assert_eq!(
        first,
        "--- s\n+++ t\n@@ -1,2 +1,2 @@\n a\n-b\n\\ No newline at end of file\n+c\n\\ No newline at end of file\n"
    );
}

#[test]
fn header_is_the_same_whatever_the_files_hold() {
    let edits = vec![insert(1, "x")];
    let first = DiffBuilder::render(&file("left path", "1\n2\n"), &file("right", "x\n"), &edits);
    let second = DiffBuilder::render(&file("left path", ""), &file("right", "zzz"), &edits);
    assert!(first.starts_with("--- left path\n+++ right\n"));
    assert!(second.starts_with("--- left path\n+++ right\n"));
}

#[test]
fn header_uses_minus_for_source_and_plus_for_target() {
    let mut result = String::from("before\n");
    DiffBuilder::push_header(&mut result, &file("a/b.rs", "x"), &file("c/d.rs", "y"));
    assert_eq!(result, "before\n--- a/b.rs\n+++ c/d.rs\n");
}

#[test]
fn header_with_empty_paths() {
    let mut result = String::new();
    DiffBuilder::push_header(&mut result, &file("", "x"), &file("", "y"));
    assert_eq!(result, "--- \n+++ \n");
}

#[test]
fn range_line_of_zero_ranges() {
    let mut result = String::new();
    let nothing = ChangeRange { start: 0, count: 0 };
    DiffBuilder::push_change_range(&mut result, &nothing, &nothing);
    assert_eq!(result, "@@ -0,0 +0,0 @@\n");
}

#[test]
fn range_line_writes_numbers_in_decimal() {
    let mut result = String::from(">");
    let old_range = ChangeRange { start: 18446744073709551615, count: 10 };
    let new_range = ChangeRange { start: 100, count: 9007199254740993 };
    DiffBuilder::push_change_range(&mut result, &old_range, &new_range);
    assert_eq!(result, ">@@ -18446744073709551615,10 +100,9007199254740993 @@\n");
}

#[test]
fn decimal_matches_the_standard_notation() {
    let numbers: Vec<u64> = vec![
        0, 1, 9, 10, 11, 99, 100, 101, 909, 1000, 65535, 4294967296, 12345678901234567890,
        18446744073709551615,
    ];
    for n in numbers {
        let mut out = String::from("n=");
        push_decimal(&mut out, n);
        assert_eq!(out, format!("n={}", n));
    }
}

#[test]
fn body_of_each_kind_of_operation() {
    let mut result = String::from("@");
    let edits = vec![delete(1, "gone"), insert(1, "come"), equal(2, 2, "kept")];
    let old_range = ChangeRange { start: 1, count: 2 };
    let new_range = ChangeRange { start: 1, count: 2 };
    DiffBuilder::push_change(&mut result, &edits, &old_range, &new_range, true, true);
    assert_eq!(result, "@-gone\n+come\n kept\n");
}

#[test]
fn body_of_nothing_is_empty() {
    let mut result = String::from("kept");
    let range = ChangeRange { start: 0, count: 0 };
    DiffBuilder::push_change(&mut result, &vec![], &range, &range, false, false);
    assert_eq!(result, "kept");
}

#[test]
fn marker_follows_the_last_old_line_of_an_unterminated_source() {
    let mut result = String::new();
    let edits = vec![equal(1, 1, "line1"), delete(2, "line2"), insert(2, "line2")];
    let old_range = ChangeRange { start: 1, count: 2 };
    let new_range = ChangeRange { start: 1, count: 2 };
    DiffBuilder::push_change(&mut result, &edits, &old_range, &new_range, false, true);
    assert_eq!(result, " line1\n-line2\n\\ No newline at end of file\n+line2\n");
}

#[test]
fn marker_follows_the_last_new_line_of_an_unterminated_target() {
    let mut result = String::new();
    let edits = vec![equal(1, 1, "line1"), delete(2, "line2"), insert(2, "line2")];
    let old_range = ChangeRange { start: 1, count: 2 };
    let new_range = ChangeRange { start: 1, count: 2 };
    DiffBuilder::push_change(&mut result, &edits, &old_range, &new_range, true, false);
    assert_eq!(result, " line1\n-line2\n+line2\n\\ No newline at end of file\n");
}

#[test]
fn kept_last_line_of_two_unterminated_files_gets_two_markers() {
    let mut result = String::new();
    let edits = vec![equal(1, 1, "only")];
    let range = ChangeRange { start: 1, count: 1 };
    DiffBuilder::push_change(&mut result, &edits, &range, &range, false, false);
    assert_eq!(
        result,
        " only\n\\ No newline at end of file\n\\ No newline at end of file\n"
    );
}

#[test]
fn kept_line_is_checked_against_each_side_under_its_own_number() {
    let mut result = String::new();
    let edits = vec![insert(1, "x"), equal(1, 2, "a"), delete(2, "b")];
    let old_range = ChangeRange { start: 1, count: 2 };
    let new_range = ChangeRange { start: 1, count: 2 };
    DiffBuilder::push_change(&mut result, &edits, &old_range, &new_range, false, false);
    assert_eq!(
        result,
        "+x\n a\n\\ No newline at end of file\n-b\n\\ No newline at end of file\n"
    );
}

#[test]
fn no_marker_where_both_files_are_terminated() {
    let mut result = String::new();
    let edits = vec![equal(1, 1, "only")];
    let range = ChangeRange { start: 1, count: 1 };
    DiffBuilder::push_change(&mut result, &edits, &range, &range, true, true);
    assert_eq!(result, " only\n");
}

#[test]
fn no_marker_for_a_range_without_lines() {
    let mut result = String::new();
    let edits = vec![delete(0, "zero"), insert(0, "zero")];
    let nothing = ChangeRange { start: 0, count: 0 };
    DiffBuilder::push_change(&mut result, &edits, &nothing, &nothing, false, false);
    assert_eq!(result, "-zero\n+zero\n");
}

#[test]
fn ranges_span_from_least_to_greatest_number() {
    let edits = vec![delete(3, "a"), insert(10, "b"), equal(7, 12, "c")];
    let (old_range, new_range) = DiffBuilder::calculate_change_range(&edits);
    assert_eq!(old_range, ChangeRange { start: 3, count: 5 });
    assert_eq!(new_range, ChangeRange { start: 10, count: 3 });
}

#[test]
fn ranges_of_an_empty_script_are_zero() {
    let (old_range, new_range) = DiffBuilder::calculate_change_range(&vec![]);
    assert_eq!(old_range, ChangeRange { start: 0, count: 0 });
    assert_eq!(new_range, ChangeRange { start: 0, count: 0 });
}

#[test]
fn range_of_a_side_without_lines_is_zero() {
    let edits = vec![insert(4, "a"), insert(5, "b")];
    let (old_range, new_range) = DiffBuilder::calculate_change_range(&edits);
    assert_eq!(old_range, ChangeRange { start: 0, count: 0 });
    assert_eq!(new_range, ChangeRange { start: 4, count: 2 });
}

#[test]
fn range_of_unordered_numbers_leaves_them_as_they_were() {
    let mut numbers = vec![11, 5, 7, 5, 9];
    let range = DiffBuilder::calculate_change_range_impl(&mut numbers);
    assert_eq!(range, ChangeRange { start: 5, count: 7 });
    assert_eq!(numbers, vec![11, 5, 7, 5, 9]);
}

#[test]
fn range_of_the_greatest_number() {
    let mut numbers = vec![18446744073709551615];
    let range = DiffBuilder::calculate_change_range_impl(&mut numbers);
    assert_eq!(range, ChangeRange { start: 18446744073709551615, count: 1 });
    assert_eq!(range.end(), 18446744073709551615);
}

#[test]
fn range_ends_at_its_last_line_only() {
    let range = ChangeRange { start: 5, count: 3 };
    assert!(range.ends_at(7));
    assert!(!range.ends_at(6));
    assert!(!range.ends_at(8));
    assert!(!range.ends_at(5));
}

#[test]
fn range_without_lines_ends_nowhere() {
    let range = ChangeRange { start: 0, count: 0 };
    assert!(!range.ends_at(0));
    assert!(!range.ends_at(18446744073709551615));
}

#[test]
fn range_beyond_all_numbers_ends_nowhere() {
    let range = ChangeRange { start: 18446744073709551615, count: 2 };
    assert!(!range.ends_at(0));
    assert!(!range.ends_at(18446744073709551615));
}
