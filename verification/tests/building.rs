use unified_diff::diff_builder::DiffBuilder;
use unified_diff::file::File;

fn build(source: &str, target: &str) -> String {
    DiffBuilder::build(
        File { path: "source.txt".to_string(), content: source.to_string() },
        File { path: "target.txt".to_string(), content: target.to_string() },
    )
}

fn body(diff: &str) -> Vec<&str> {
    diff.lines().skip(3).collect()
}

#[test]
fn build_of_identical_files_keeps_every_line() {
    let result = build("line1\nline2\nline3\n", "line1\nline2\nline3\n");
    assert_eq!(
        result,
        "--- source.txt\n+++ target.txt\n@@ -1,4 +1,4 @@\n line1\n line2\n line3\n \n"
    );
    for body_line in body(&result) {
        assert!(body_line.starts_with(' '));
    }
}

#[test]
fn build_of_identical_unterminated_files_marks_both_sides() {
    assert_eq!(
        build("a\nb", "a\nb"),
        "--- source.txt\n+++ target.txt\n@@ -1,2 +1,2 @@\n a\n b\n\\ No newline at end of file\n\\ No newline at end of file\n"
    );
}

#[test]
fn build_of_empty_files_has_zero_ranges_and_no_body() {
    assert_eq!(build("", ""), "--- source.txt\n+++ target.txt\n@@ -0,0 +0,0 @@\n");
}

#[test]
fn build_of_deleted_lines() {
    let result = build("line1\nline2\nline3\nline4\n", "line1\nline3\n");
    assert_eq!(
        result,
        "--- source.txt\n+++ target.txt\n@@ -1,5 +1,3 @@\n line1\n-line2\n line3\n-line4\n \n"
    );
    for body_line in body(&result) {
        assert!(!body_line.starts_with('+'));
    }
}

#[test]
fn build_of_inserted_lines() {
    let result = build("line1\nline3\n", "line1\nline2\nline3\nline4\n");
    assert_eq!(
        result,
        "--- source.txt\n+++ target.txt\n@@ -1,3 +1,5 @@\n line1\n+line2\n line3\n+line4\n \n"
    );
    for body_line in body(&result) {
        assert!(!body_line.starts_with('-'));
    }
}

#[test]
fn build_of_a_changed_line() {
    assert_eq!(
        build("line1\nold_line2\nline3\n", "line1\nnew_line2\nline3\n"),
        "--- source.txt\n+++ target.txt\n@@ -1,4 +1,4 @@\n line1\n-old_line2\n+new_line2\n line3\n \n"
    );
}

#[test]
fn build_marks_the_last_line_of_an_unterminated_source_once() {
    let result = build("line1\nline2", "line1\nline2\n");
    assert_eq!(
        result,
        "--- source.txt\n+++ target.txt\n@@ -1,2 +1,3 @@\n line1\n line2\n\\ No newline at end of file\n+\n"
    );
    assert_eq!(result.matches("\\ No newline at end of file\n").count(), 1);
    let lines = body(&result);
    let marker = lines.iter().position(|l| *l == "\\ No newline at end of file").unwrap();
    assert_eq!(lines[marker - 1], " line2");
}

#[test]
fn build_marks_the_last_line_of_an_unterminated_target() {
    assert_eq!(
        build("a\nb\n", "a\nb"),
        "--- source.txt\n+++ target.txt\n@@ -1,3 +1,2 @@\n a\n b\n\\ No newline at end of file\n-\n"
    );
}

#[test]
fn build_of_single_lines_that_differ() {
    assert_eq!(
        build("old", "new"),
        "--- source.txt\n+++ target.txt\n@@ -1,1 +1,1 @@\n-old\n\\ No newline at end of file\n+new\n\\ No newline at end of file\n"
    );
}

#[test]
fn build_from_an_empty_file() {
    assert_eq!(
        build("", "a\nb\n"),
        "--- source.txt\n+++ target.txt\n@@ -0,0 +1,3 @@\n+a\n+b\n+\n"
    );
}

#[test]
fn build_to_an_empty_file() {
    assert_eq!(
        build("a\nb\n", ""),
        "--- source.txt\n+++ target.txt\n@@ -1,3 +0,0 @@\n-a\n-b\n-\n"
    );
}

#[test]
fn build_of_an_appended_line() {
    assert_eq!(
        build("a\nb\nc\nd\n", "a\nb\nc\nd\ne\n"),
        "--- source.txt\n+++ target.txt\n@@ -1,5 +1,6 @@\n a\n b\n c\n d\n+e\n \n"
    );
}

#[test]
fn build_of_a_dropped_first_line() {
    assert_eq!(
        build("a\nb\nc\nd\ne", "b\nc\nd\ne"),
        "--- source.txt\n+++ target.txt\n@@ -1,5 +1,4 @@\n-a\n b\n c\n d\n e\n\\ No newline at end of file\n\\ No newline at end of file\n"
    );
}

#[test]
fn build_of_files_that_share_nothing() {
    assert_eq!(
        build("a\nb\nc", "x\ny\nz"),
        "--- source.txt\n+++ target.txt\n@@ -1,3 +1,3 @@\n-a\n-b\n-c\n\\ No newline at end of file\n+x\n+y\n+z\n\\ No newline at end of file\n"
    );
}

#[test]
fn build_of_two_changes_far_apart() {
    assert_eq!(
        build("a\nb\nc\nd\ne\nf\ng\nh\n", "a\nB\nc\nd\ne\nf\nG\nh\n"),
        "--- source.txt\n+++ target.txt\n@@ -1,9 +1,9 @@\n a\n-b\n+B\n c\n d\n e\n f\n-g\n+G\n h\n \n"
    );
}

#[test]
fn build_of_changes_at_both_ends() {
    assert_eq!(
        build("x\na\nb\nc\ny\n", "a\nb\nc\n"),
        "--- source.txt\n+++ target.txt\n@@ -1,6 +1,4 @@\n-x\n a\n b\n c\n-y\n \n"
    );
}

#[test]
fn build_of_two_lines_that_change_places() {
    assert_eq!(
        build("b\na\nc\n", "a\nb\nc\n"),
        "--- source.txt\n+++ target.txt\n@@ -1,4 +1,4 @@\n-b\n a\n+b\n c\n \n"
    );
}

#[test]
fn build_twice_gives_the_same_text() {
    let first = build("a\nb\nc\n", "a\nx\nc\n");
    let second = build("a\nb\nc\n", "a\nx\nc\n");
    assert_eq!(first, second);
    assert_eq!(first, "--- source.txt\n+++ target.txt\n@@ -1,4 +1,4 @@\n a\n-b\n+x\n c\n \n");
}

#[test]
fn build_begins_with_the_header_whatever_the_files_hold() {
    for (source, target) in [("", ""), ("a", "b"), ("a\n", "a\n"), ("x\ny\n", "")] {
        let result = DiffBuilder::build(
            File { path: "dir/old name".to_string(), content: source.to_string() },
            File { path: "dir/new name".to_string(), content: target.to_string() },
        );
        assert!(result.starts_with("--- dir/old name\n+++ dir/new name\n@@ -"));
    }
}

#[test]
fn build_holds_the_target_in_its_kept_and_inserted_lines() {
    let texts = ["", "a", "a\nb\n", "a\nb\nc\nd", "b\nd\n", "q\n\nq\n"];
    for source in texts {
        for target in texts {
            let result = build(source, target);
            let mut kept_or_new: Vec<&str> = Vec::new();
            let mut kept_or_old: Vec<&str> = Vec::new();
            for body_line in body(&result) {
                if body_line.starts_with(' ') {
                    kept_or_new.push(&body_line[1..]);
                    kept_or_old.push(&body_line[1..]);
                } else if body_line.starts_with('+') {
                    kept_or_new.push(&body_line[1..]);
                } else if body_line.starts_with('-') {
                    kept_or_old.push(&body_line[1..]);
                }
            }
            assert_eq!(kept_or_new.join("\n"), target);
            assert_eq!(kept_or_old.join("\n"), source);
        }
    }
}

#[test]
fn build_of_longer_files_holds_both() {
    let mut seed: u32 = 12345;
    let mut next = move |bound: u32| {
        seed = seed.wrapping_mul(1103515245).wrapping_add(12345);
        (seed >> 16) % bound
    };
    for round in 0..40 {
        let mut source_lines: Vec<String> = Vec::new();
        for _ in 0..(next(50) + 1) {
            source_lines.push(format!("line {}", next(6)));
        }
        let mut target_lines = source_lines.clone();
        for _ in 0..next(12) {
            let at = next(target_lines.len() as u32 + 1) as usize;
            match next(3) {
                0 => target_lines.insert(at, format!("new {}", next(4))),
                1 if at < target_lines.len() => {
                    target_lines.remove(at);
                }
                _ if at < target_lines.len() => target_lines[at] = format!("line {}", next(6)),
                _ => {}
            }
        }
        let mut source = source_lines.join("\n");
        let mut target = target_lines.join("\n");
        if round % 2 == 0 && !source.is_empty() {
            source.push('\n');
        }
        if round % 3 == 0 && !target.is_empty() {
            target.push('\n');
        }
        let result = build(&source, &target);
        let mut kept_or_new: Vec<&str> = Vec::new();
        let mut kept_or_old: Vec<&str> = Vec::new();
        for body_line in body(&result) {
            if body_line.starts_with(' ') {
                kept_or_new.push(&body_line[1..]);
                kept_or_old.push(&body_line[1..]);
            } else if body_line.starts_with('+') {
                kept_or_new.push(&body_line[1..]);
            } else if body_line.starts_with('-') {
                kept_or_old.push(&body_line[1..]);
            }
        }
        assert_eq!(kept_or_new.join("\n"), target);
        assert_eq!(kept_or_old.join("\n"), source);
    }
}

#[test]
fn build_of_a_file_that_grew_by_very_many_lines() {
    let mut source = String::from("first\nsecond\n");
    let mut target = source.clone();
    for number in 0..300000 {
        target.push_str(&format!("entry {}\n", number));
    }
    let result = build(&source, &target);
    assert!(result.starts_with(
        "--- source.txt\n+++ target.txt\n@@ -1,3 +1,300003 @@\n first\n second\n+entry 0\n+entry 1\n"
    ));
    assert!(result.ends_with("+entry 299998\n+entry 299999\n \n"));
    assert_eq!(result.lines().count(), 3 + 300003);
    source.push_str("last");
    let result = build(&target, &source);
    assert!(result.starts_with(
        "--- source.txt\n+++ target.txt\n@@ -1,300003 +1,3 @@\n first\n second\n-entry 0\n-entry 1\n"
    ));
    assert!(result.ends_with(
        "-entry 299999\n-\n+last\n\\ No newline at end of file\n"
    ));
}
