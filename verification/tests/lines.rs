use unified_diff::lines::{ends_with_newline, split_lines};

fn strings(lines: &[&str]) -> Vec<String> {
    lines.iter().map(|line| line.to_string()).collect()
}

#[test]
fn empty_text_has_no_lines() {
    assert_eq!(split_lines(""), Vec::<String>::new());
}

#[test]
fn text_without_terminator_is_one_line() {
    assert_eq!(split_lines("old"), strings(&["old"]));
}

#[test]
fn terminated_text_has_an_empty_last_line() {
    assert_eq!(split_lines("line1\nline2\nline3\n"), strings(&["line1", "line2", "line3", ""]));
}

#[test]
fn unterminated_text_ends_with_its_last_line() {
    assert_eq!(split_lines("line1\nline2"), strings(&["line1", "line2"]));
}

#[test]
fn lone_terminator_separates_two_empty_lines() {
    assert_eq!(split_lines("\n"), strings(&["", ""]));
}

#[test]
fn empty_lines_are_kept() {
    assert_eq!(split_lines("a\n\n\nb"), strings(&["a", "", "", "b"]));
}

#[test]
fn carriage_returns_stay_in_the_line() {
    assert_eq!(split_lines("a\r\nb\r\n"), strings(&["a\r", "b\r", ""]));
}

#[test]
fn lines_hold_any_characters() {
    assert_eq!(split_lines("héllo\n日本語\n🦀"), strings(&["héllo", "日本語", "🦀"]));
}

#[test]
fn lines_joined_are_the_text() {
    for text in ["", "a", "a\n", "\n", "\n\n", "a\nb", "a\n\nb\n", "é\n🦀\n"] {
        assert_eq!(split_lines(text).join("\n"), text);
    }
}

#[test]
fn no_line_holds_a_terminator() {
    for line in split_lines("one\ntwo\n\nthree\n") {
        assert!(!line.contains('\n'));
    }
}

#[test]
fn text_ends_with_newline() {
    assert!(ends_with_newline("a\n"));
    assert!(ends_with_newline("\n"));
    assert!(ends_with_newline("a\nb\n"));
    assert!(ends_with_newline("日本語\n"));
}

#[test]
fn text_does_not_end_with_newline() {
    assert!(!ends_with_newline(""));
    assert!(!ends_with_newline("a"));
    assert!(!ends_with_newline("a\nb"));
    assert!(!ends_with_newline("\n "));
    assert!(!ends_with_newline("a\n🦀"));
}
