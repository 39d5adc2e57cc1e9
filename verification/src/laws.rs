//! What holds of every diff.

use vstd::prelude::*;
use crate::change_range::Span;
use crate::decimal::decimal;
use crate::differ::{lemma_line_diff_sides, line_diff, recovered_script, unified_diff};
use crate::edit::{lemma_sides_hold_lines, new_side, old_side, texts_of, EditView, LineView};
use crate::engine::consulted_script;
use crate::lines::{
    is_terminated, joined, lemma_joined_lines, lemma_joined_split, lemma_lines_hold_no_newline,
    lines_of,
};
use crate::reading::{
    is_plain, lemma_body_holds_shown_lines, lemma_shown_lines_are_sides, source_read_from,
    target_read_from,
};
use crate::script::{
    equal_run, keeps_text, lemma_coarse_script_of_same, lemma_edits_up_to_keep_text,
    lemma_equal_run_sides, lemma_span_of_numbered, numbered, whole_span,
};
use crate::text::{
    body_text, diff_text, header_text, new_numbers, old_numbers, operation_text, range_text,
};

verus! {

/// A diff begins with the two header lines, whatever the files hold and
/// whatever the script: `--- `, the source path and a line terminator, then
/// `+++ `, the target path and a line terminator.
pub proof fn lemma_header_comes_first(
    source_path: Seq<char>,
    target_path: Seq<char>,
    edits: Seq<EditView>,
    old_ends_with_newline: bool,
    new_ends_with_newline: bool,
)
    ensures
        header_text(source_path, target_path).is_prefix_of(
            diff_text(
                source_path,
                target_path,
                edits,
                old_ends_with_newline,
                new_ends_with_newline,
            ),
        ),
        header_text(source_path, target_path) == seq!['-', '-', '-', ' '] + source_path
            + seq!['\n'] + seq!['+', '+', '+', ' '] + target_path + seq!['\n'],
{
    reveal_strlit("--- ");
    reveal_strlit("+++ ");
    reveal_strlit("\n");
    assert("--- "@ =~= seq!['-', '-', '-', ' ']);
    assert("+++ "@ =~= seq!['+', '+', '+', ' ']);
    assert("\n"@ =~= seq!['\n']);
}

/// The diff of two files begins with the two header lines, whatever the
/// files hold.
pub proof fn lemma_header_of_any_files(
    source_path: Seq<char>,
    source_content: Seq<char>,
    target_path: Seq<char>,
    target_content: Seq<char>,
)
    ensures
        header_text(source_path, target_path).is_prefix_of(
            unified_diff(source_path, source_content, target_path, target_content),
        ),
{
    lemma_header_comes_first(
        source_path,
        target_path,
        line_diff(source_content, target_content),
        is_terminated(source_content),
        is_terminated(target_content),
    );
}

/// The range line for two sides that both run from line 1 over `count`
/// lines is `@@ -1,count +1,count @@`.
pub proof fn lemma_range_text_of_whole(count: int)
    ensures
        range_text(Span { start: 1, count }, Span { start: 1, count }) == seq![
            '@',
            '@',
            ' ',
            '-',
            '1',
            ',',
        ] + decimal(count) + seq![' ', '+', '1', ','] + decimal(count) + seq![' ', '@', '@', '\n'],
{
    reveal_strlit("@@ -");
    reveal_strlit(",");
    reveal_strlit(" +");
    reveal_strlit(" @@\n");
    assert(decimal(1) =~= seq!['1']);
    assert(range_text(Span { start: 1, count }, Span { start: 1, count }) =~= seq![
        '@',
        '@',
        ' ',
        '-',
        '1',
        ',',
    ] + decimal(count) + seq![' ', '+', '1', ','] + decimal(count) + seq![' ', '@', '@', '\n']);
}

/// A script that keeps the first `count` lines of both files in place and
/// does nothing else gives both ranges from line 1 over `count` lines, and
/// the text of every operation begins with a space, the line and a line
/// terminator.
pub proof fn lemma_kept_lines(
    source_path: Seq<char>,
    target_path: Seq<char>,
    old_lines: Seq<Seq<char>>,
    new_lines: Seq<Seq<char>>,
    count: int,
    old_ends_with_newline: bool,
    new_ends_with_newline: bool,
)
    requires
        1 <= count <= old_lines.len(),
        count <= new_lines.len(),
    ensures
        ({
            let kept = equal_run(old_lines, new_lines, 0, 0, count);
            let whole = Span { start: 1, count };
            &&& Span::of(old_numbers(kept)) == whole
            &&& Span::of(new_numbers(kept)) == whole
            &&& diff_text(
                source_path,
                target_path,
                kept,
                old_ends_with_newline,
                new_ends_with_newline,
            ) == header_text(source_path, target_path) + range_text(whole, whole) + body_text(
                kept,
                whole,
                whole,
                old_ends_with_newline,
                new_ends_with_newline,
            )
            &&& forall|i: int|
                0 <= i < count ==> (seq![' '] + old_lines[i] + seq!['\n']).is_prefix_of(
                    #[trigger] operation_text(
                        kept[i],
                        whole,
                        whole,
                        old_ends_with_newline,
                        new_ends_with_newline,
                    ),
                )
        }),
{
    let kept = equal_run(old_lines, new_lines, 0, 0, count);
    let whole = Span { start: 1, count };
    lemma_equal_run_sides(old_lines, new_lines, 0, 0, count);
    assert(numbered(old_lines).subrange(0, count) =~= numbered(old_lines.take(count)));
    assert(numbered(new_lines).subrange(0, count) =~= numbered(new_lines.take(count)));
    lemma_span_of_numbered(old_lines.take(count));
    lemma_span_of_numbered(new_lines.take(count));
    reveal_strlit(" ");
    reveal_strlit("\n");
    assert(" "@ =~= seq![' ']);
    assert("\n"@ =~= seq!['\n']);
    assert forall|i: int| 0 <= i < count implies (seq![' '] + old_lines[i] + seq![
        '\n',
    ]).is_prefix_of(
        #[trigger] operation_text(
            kept[i],
            whole,
            whole,
            old_ends_with_newline,
            new_ends_with_newline,
        ),
    ) by {
        let text = operation_text(
            kept[i],
            whole,
            whole,
            old_ends_with_newline,
            new_ends_with_newline,
        );
        let line = seq![' '] + old_lines[i] + seq!['\n'];
        assert(line =~= text.subrange(0, line.len() as int));
    }
}

/// The diff of a file with a file of the same content keeps every line in
/// place: both ranges run from line 1 over all the lines, and the text of
/// every operation begins with a space, the line and a line terminator.
pub proof fn lemma_identical_files(
    source_path: Seq<char>,
    target_path: Seq<char>,
    content: Seq<char>,
)
    requires
        content.len() > 0,
    ensures
        ({
            let lines = lines_of(content);
            let count = lines.len() as int;
            let whole = Span { start: 1, count };
            let terminated = is_terminated(content);
            let kept = line_diff(content, content);
            &&& count >= 1
            &&& kept == equal_run(lines, lines, 0, 0, count)
            &&& unified_diff(source_path, content, target_path, content) == header_text(
                source_path,
                target_path,
            ) + range_text(whole, whole) + body_text(kept, whole, whole, terminated, terminated)
            &&& forall|i: int|
                0 <= i < count ==> (seq![' '] + lines[i] + seq!['\n']).is_prefix_of(
                    #[trigger] operation_text(kept[i], whole, whole, terminated, terminated),
                )
        }),
{
    let lines = lines_of(content);
    let count = lines.len() as int;
    let terminated = is_terminated(content);
    lemma_joined_split(content);
    assert(consulted_script(lines, lines) =~= Seq::empty());
    assert(recovered_script(lines, lines) =~= Seq::empty());
    assert(lines.take(count) =~= lines);
    lemma_coarse_script_of_same(lines);
    lemma_kept_lines(source_path, target_path, lines, lines, count, terminated, terminated);
}

/// An empty script gives the header, the range line `@@ -0,0 +0,0 @@` and an
/// empty body.
pub proof fn lemma_empty_script(
    source_path: Seq<char>,
    target_path: Seq<char>,
    old_ends_with_newline: bool,
    new_ends_with_newline: bool,
)
    ensures
        diff_text(
            source_path,
            target_path,
            Seq::empty(),
            old_ends_with_newline,
            new_ends_with_newline,
        ) == header_text(source_path, target_path) + "@@ -0,0 +0,0 @@\n"@,
{
    let nothing = Span { start: 0, count: 0 };
    reveal_strlit("@@ -");
    reveal_strlit(",");
    reveal_strlit(" +");
    reveal_strlit(" @@\n");
    reveal_strlit("@@ -0,0 +0,0 @@\n");
    assert(decimal(0) =~= seq!['0']);
    assert(range_text(nothing, nothing) =~= "@@ -0,0 +0,0 @@\n"@);
    assert(old_side(Seq::<EditView>::empty()) =~= Seq::<LineView>::empty());
    assert(new_side(Seq::<EditView>::empty()) =~= Seq::<LineView>::empty());
    assert(body_text(
        Seq::<EditView>::empty(),
        nothing,
        nothing,
        old_ends_with_newline,
        new_ends_with_newline,
    ) =~= Seq::<char>::empty());
    assert(diff_text(
        source_path,
        target_path,
        Seq::empty(),
        old_ends_with_newline,
        new_ends_with_newline,
    ) =~= header_text(source_path, target_path) + "@@ -0,0 +0,0 @@\n"@);
}

/// Two empty files give the header, the range line `@@ -0,0 +0,0 @@` and an
/// empty body.
pub proof fn lemma_empty_files(source_path: Seq<char>, target_path: Seq<char>)
    ensures
        unified_diff(source_path, Seq::empty(), target_path, Seq::empty()) == header_text(
            source_path,
            target_path,
        ) + "@@ -0,0 +0,0 @@\n"@,
{
    let no_lines = Seq::<Seq<char>>::empty();
    assert(lines_of(Seq::<char>::empty()) =~= no_lines);
    assert(consulted_script(no_lines, no_lines) =~= Seq::empty());
    assert(recovered_script(no_lines, no_lines) =~= Seq::empty());
    assert(no_lines.take(0) =~= no_lines);
    lemma_coarse_script_of_same(no_lines);
    assert(line_diff(Seq::empty(), Seq::empty()) =~= Seq::<EditView>::empty());
    lemma_empty_script(source_path, target_path, false, false);
}

/// The diff of two files holds both of them, whatever the engine returned:
/// the lines of its deletions and equalities, joined, are the source's
/// content; the lines of its insertions and equalities, joined, are the
/// target's content, to the last character; and every line that it calls
/// equal holds the same text in both files.
pub proof fn lemma_diff_holds_both_files(old_text: Seq<char>, new_text: Seq<char>)
    ensures
        joined(texts_of(old_side(line_diff(old_text, new_text)))) == old_text,
        joined(texts_of(new_side(line_diff(old_text, new_text)))) == new_text,
        forall|i: int|
            0 <= i < line_diff(old_text, new_text).len() ==> keeps_text(
                #[trigger] line_diff(old_text, new_text)[i],
            ),
{
    let old_lines = lines_of(old_text);
    let new_lines = lines_of(new_text);
    lemma_line_diff_sides(old_text, new_text);
    assert(texts_of(numbered(old_lines)) =~= old_lines);
    assert(texts_of(numbered(new_lines)) =~= new_lines);
    lemma_joined_lines(old_text);
    lemma_joined_lines(new_text);
    assert forall|i: int| 0 <= i < line_diff(old_text, new_text).len() implies keeps_text(
        #[trigger] line_diff(old_text, new_text)[i],
    ) by {
        lemma_edits_up_to_keep_text(
            old_lines,
            new_lines,
            recovered_script(old_lines, new_lines),
            old_lines.len() as int,
            new_lines.len() as int,
            i,
        );
    }
}

/// The diff of two files can be read back, whatever the engine returned:
/// after the header and the range line, which spans both files, comes a body
/// whose kept and removed lines, joined, are the source's content, and whose
/// kept and added lines, joined, are the target's content, to the last
/// character.
pub proof fn lemma_diff_reads_back(
    source_path: Seq<char>,
    source_content: Seq<char>,
    target_path: Seq<char>,
    target_content: Seq<char>,
)
    ensures
        ({
            let old_span = whole_span(lines_of(source_content));
            let new_span = whole_span(lines_of(target_content));
            let body = body_text(
                line_diff(source_content, target_content),
                old_span,
                new_span,
                is_terminated(source_content),
                is_terminated(target_content),
            );
            &&& unified_diff(source_path, source_content, target_path, target_content)
                == header_text(source_path, target_path) + range_text(old_span, new_span) + body
            &&& source_read_from(body) == source_content
            &&& target_read_from(body) == target_content
        }),
{
    let old_lines = lines_of(source_content);
    let new_lines = lines_of(target_content);
    let edits = line_diff(source_content, target_content);
    let old_span = whole_span(old_lines);
    let new_span = whole_span(new_lines);
    let old_ends_with_newline = is_terminated(source_content);
    let new_ends_with_newline = is_terminated(target_content);
    lemma_line_diff_sides(source_content, target_content);
    lemma_diff_holds_both_files(source_content, target_content);
    assert forall|i: int| 0 <= i < edits.len() implies is_plain(#[trigger] edits[i]) by {
        lemma_sides_hold_lines(edits, i);
        match edits[i] {
            EditView::Insert { new } => {
                let at = choose|k: int|
                    0 <= k < numbered(new_lines).len() && numbered(new_lines)[k] == new;
                lemma_lines_hold_no_newline(target_content, at);
            },
            EditView::Delete { old } => {
                let at = choose|k: int|
                    0 <= k < numbered(old_lines).len() && numbered(old_lines)[k] == old;
                lemma_lines_hold_no_newline(source_content, at);
            },
            EditView::Equal { old, new } => {
                let at = choose|k: int|
                    0 <= k < numbered(old_lines).len() && numbered(old_lines)[k] == old;
                lemma_lines_hold_no_newline(source_content, at);
            },
        }
    }
    lemma_body_holds_shown_lines(
        edits,
        old_span,
        new_span,
        old_ends_with_newline,
        new_ends_with_newline,
        ' ',
        '-',
    );
    lemma_body_holds_shown_lines(
        edits,
        old_span,
        new_span,
        old_ends_with_newline,
        new_ends_with_newline,
        ' ',
        '+',
    );
    lemma_shown_lines_are_sides(edits);
}

/// Rendering is a function of the paths, the script and the two terminator
/// states: two diffs rendered from the same of these are the same text.
pub proof fn lemma_same_script_same_diff(
    first: Seq<char>,
    second: Seq<char>,
    source_path: Seq<char>,
    target_path: Seq<char>,
    edits: Seq<EditView>,
    old_ends_with_newline: bool,
    new_ends_with_newline: bool,
)
    requires
        first == diff_text(
            source_path,
            target_path,
            edits,
            old_ends_with_newline,
            new_ends_with_newline,
        ),
        second == diff_text(
            source_path,
            target_path,
            edits,
            old_ends_with_newline,
            new_ends_with_newline,
        ),
    ensures
        first == second,
{
}

/// Building is a function of the two files: two diffs built from the same
/// paths and contents are the same text.
pub proof fn lemma_same_files_same_diff(
    first: Seq<char>,
    second: Seq<char>,
    source_path: Seq<char>,
    source_content: Seq<char>,
    target_path: Seq<char>,
    target_content: Seq<char>,
)
    requires
        first == unified_diff(source_path, source_content, target_path, target_content),
        second == unified_diff(source_path, source_content, target_path, target_content),
    ensures
        first == second,
{
}

/// A span of some numbers begins at the least of them and ends at the
/// greatest, so it holds each of them, and it counts at least one line.
pub proof fn lemma_span_covers(numbers: Seq<int>)
    requires
        numbers.len() > 0,
    ensures
        numbers.contains(Span::of(numbers).start),
        numbers.contains(Span::of(numbers).end()),
        Span::of(numbers).count >= 1,
        forall|i: int|
            0 <= i < numbers.len() ==> Span::of(numbers).start <= #[trigger] numbers[i]
                <= Span::of(numbers).end(),
{
    numbers.min_ensures();
    numbers.max_ensures();
}

/// A span counts no line exactly when there is no number; and where line
/// numbers start from 1, exactly when it starts at 0.
pub proof fn lemma_span_of_nothing(numbers: Seq<int>)
    ensures
        Span::of(numbers).count == 0 <==> numbers.len() == 0,
        (forall|i: int| 0 <= i < numbers.len() ==> #[trigger] numbers[i] >= 1) ==> (Span::of(
            numbers,
        ).count == 0 <==> Span::of(numbers).start == 0),
{
    if numbers.len() > 0 {
        lemma_span_covers(numbers);
    }
}

/// A file that holds anything ends with a line terminator exactly when its
/// last line is empty.
pub proof fn lemma_terminated_last_line(content: Seq<char>)
    requires
        content.len() > 0,
    ensures
        is_terminated(content) <==> lines_of(content).last().len() == 0,
{
    lemma_joined_split(content.drop_last());
}

} // verus!
