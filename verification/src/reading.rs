//! Reading a diff's body back: the lines that it marks as kept, added or
//! removed hold both files.

use vstd::prelude::*;
use crate::change_range::Span;
use crate::edit::{lemma_sides_push, new_side, old_side, texts_of, EditView};
use crate::lines::{joined, lemma_split_add_line, lemma_split_of_terminated, split};
use crate::script::keeps_text;
use crate::text::{
    body_text, lemma_body_text_push, marker_text, operation_text, NO_NEWLINE_AT_END_OF_FILE,
};

verus! {

/// Whether a line of the body begins with one of two marks.
pub open spec fn is_marked(line: Seq<char>, first: char, second: char) -> bool {
    line.len() > 0 && (line[0] == first || line[0] == second)
}

/// The lines that begin with one of two marks, in order and without the
/// mark.
pub open spec fn marked_lines(lines: Seq<Seq<char>>, first: char, second: char) -> Seq<Seq<char>>
    decreases lines.len(),
{
    if lines.len() == 0 {
        Seq::empty()
    } else if is_marked(lines.last(), first, second) {
        marked_lines(lines.drop_last(), first, second).push(lines.last().skip(1))
    } else {
        marked_lines(lines.drop_last(), first, second)
    }
}

/// The target that a body holds: its kept and added lines, with line
/// terminators between them.
pub open spec fn target_read_from(body: Seq<char>) -> Seq<char> {
    joined(marked_lines(split(body), ' ', '+'))
}

/// The source that a body holds: its kept and removed lines, with line
/// terminators between them.
pub open spec fn source_read_from(body: Seq<char>) -> Seq<char> {
    joined(marked_lines(split(body), ' ', '-'))
}

/// The mark that an operation's line begins with.
pub open spec fn mark_of(op: EditView) -> char {
    match op {
        EditView::Delete { old } => '-',
        EditView::Insert { new } => '+',
        EditView::Equal { old, new } => ' ',
    }
}

/// The text that an operation's line shows after its mark.
pub open spec fn text_of(op: EditView) -> Seq<char> {
    match op {
        EditView::Delete { old } => old.text,
        EditView::Insert { new } => new.text,
        EditView::Equal { old, new } => old.text,
    }
}

/// The texts of the operations whose mark is one of two, in order.
pub open spec fn shown_lines(edits: Seq<EditView>, first: char, second: char) -> Seq<Seq<char>>
    decreases edits.len(),
{
    if edits.len() == 0 {
        Seq::empty()
    } else if mark_of(edits.last()) == first || mark_of(edits.last()) == second {
        shown_lines(edits.drop_last(), first, second).push(text_of(edits.last()))
    } else {
        shown_lines(edits.drop_last(), first, second)
    }
}

/// Whether the text that an operation shows holds no line terminator.
pub open spec fn is_plain(op: EditView) -> bool {
    !text_of(op).contains('\n')
}

/// The marker line is a backslash and more characters, none of them a line
/// terminator, and then a line terminator.
proof fn lemma_marker_line()
    ensures
        NO_NEWLINE_AT_END_OF_FILE@.len() > 1,
        NO_NEWLINE_AT_END_OF_FILE@[0] == '\\',
        NO_NEWLINE_AT_END_OF_FILE@.last() == '\n',
        !NO_NEWLINE_AT_END_OF_FILE@.drop_last().contains('\n'),
{
    reveal_strlit("\\ No newline at end of file\n");
    let marker = NO_NEWLINE_AT_END_OF_FILE@;
    assert(marker.len() == 28);
    assert(marker =~= seq![
        '\\',
        ' ',
        'N',
        'o',
        ' ',
        'n',
        'e',
        'w',
        'l',
        'i',
        'n',
        'e',
        ' ',
        'a',
        't',
        ' ',
        'e',
        'n',
        'd',
        ' ',
        'o',
        'f',
        ' ',
        'f',
        'i',
        'l',
        'e',
        '\n',
    ]);
}

/// The marked lines among the whole lines of a text: those that end with a
/// line terminator.
pub open spec fn held(content: Seq<char>, first: char, second: char) -> Seq<Seq<char>> {
    marked_lines(split(content).drop_last(), first, second)
}

/// A text that is empty or ends with a line terminator has only whole
/// lines: what is left after the last terminator is empty and bears no
/// mark.
proof fn lemma_held_is_all(content: Seq<char>, first: char, second: char)
    requires
        content.len() == 0 || content.last() == '\n',
    ensures
        marked_lines(split(content), first, second) == held(content, first, second),
{
    lemma_split_of_terminated(content);
}

/// A whole line added to a text is held if it bears a mark.
proof fn lemma_held_add_line(content: Seq<char>, line: Seq<char>, first: char, second: char)
    requires
        content.len() == 0 || content.last() == '\n',
        !line.contains('\n'),
    ensures
        held(content + line.push('\n'), first, second) == if is_marked(line, first, second) {
            held(content, first, second).push(line.skip(1))
        } else {
            held(content, first, second)
        },
{
    lemma_split_add_line(content, line);
    let pieces = split(content + line.push('\n'));
    assert(pieces.drop_last() =~= split(content).drop_last().push(line));
    assert(pieces.drop_last().drop_last() =~= split(content).drop_last());
}

/// A marker line added to a text is not held: it begins with a backslash.
proof fn lemma_held_add_marker(content: Seq<char>, wanted: bool, first: char, second: char)
    requires
        content.len() == 0 || content.last() == '\n',
        first != '\\',
        second != '\\',
    ensures
        held(content + marker_text(wanted), first, second) == held(content, first, second),
        (content + marker_text(wanted)).len() == 0 || (content + marker_text(wanted)).last()
            == '\n',
{
    if wanted {
        lemma_marker_line();
        let marker = NO_NEWLINE_AT_END_OF_FILE@;
        let line = marker.drop_last();
        assert(marker =~= line.push('\n'));
        lemma_held_add_line(content, line, first, second);
    } else {
        assert(content + marker_text(wanted) =~= content);
    }
}

/// Whether an operation's line is followed by a first marker line: the
/// source's for a removed or kept line, the target's for an added one.
pub open spec fn first_marker(
    op: EditView,
    old_span: Span,
    new_span: Span,
    old_ends_with_newline: bool,
    new_ends_with_newline: bool,
) -> bool {
    match op {
        EditView::Delete { old } => !old_ends_with_newline && old_span.ends_at(old.number),
        EditView::Insert { new } => !new_ends_with_newline && new_span.ends_at(new.number),
        EditView::Equal { old, new } => !old_ends_with_newline && old_span.ends_at(old.number),
    }
}

/// Whether an operation's line is followed by a second marker line: the
/// target's for a kept line.
pub open spec fn second_marker(
    op: EditView,
    new_span: Span,
    new_ends_with_newline: bool,
) -> bool {
    match op {
        EditView::Equal { old, new } => !new_ends_with_newline && new_span.ends_at(new.number),
        _ => false,
    }
}

/// The text of an operation is its mark, its text and a line terminator,
/// and then its marker lines.
proof fn lemma_operation_text_parts(
    op: EditView,
    old_span: Span,
    new_span: Span,
    old_ends_with_newline: bool,
    new_ends_with_newline: bool,
)
    ensures
        operation_text(op, old_span, new_span, old_ends_with_newline, new_ends_with_newline) == (
        seq![mark_of(op)] + text_of(op)).push('\n') + marker_text(
            first_marker(op, old_span, new_span, old_ends_with_newline, new_ends_with_newline),
        ) + marker_text(second_marker(op, new_span, new_ends_with_newline)),
{
    reveal_strlit("-");
    reveal_strlit("+");
    reveal_strlit(" ");
    reveal_strlit("\n");
    assert("-"@ =~= seq!['-']);
    assert("+"@ =~= seq!['+']);
    assert(" "@ =~= seq![' ']);
    assert("\n"@ =~= seq!['\n']);
    let line = (seq![mark_of(op)] + text_of(op)).push('\n');
    let first = marker_text(
        first_marker(op, old_span, new_span, old_ends_with_newline, new_ends_with_newline),
    );
    let second = marker_text(second_marker(op, new_span, new_ends_with_newline));
    match op {
        EditView::Delete { old } => {
            assert(line =~= seq!['-'] + old.text + seq!['\n']);
            assert(second =~= Seq::<char>::empty());
            assert(line + first + second =~= seq!['-'] + old.text + seq!['\n'] + first);
        },
        EditView::Insert { new } => {
            assert(line =~= seq!['+'] + new.text + seq!['\n']);
            assert(second =~= Seq::<char>::empty());
            assert(line + first + second =~= seq!['+'] + new.text + seq!['\n'] + first);
        },
        EditView::Equal { old, new } => {
            assert(line =~= seq![' '] + old.text + seq!['\n']);
        },
    }
}

/// The text of an operation added to a text adds what the operation shows,
/// if its mark is one of the two, and nothing else.
proof fn lemma_held_add_operation(
    content: Seq<char>,
    op: EditView,
    old_span: Span,
    new_span: Span,
    old_ends_with_newline: bool,
    new_ends_with_newline: bool,
    first: char,
    second: char,
)
    requires
        content.len() == 0 || content.last() == '\n',
        is_plain(op),
        first != '\\',
        second != '\\',
    ensures
        ({
            let more = content + operation_text(
                op,
                old_span,
                new_span,
                old_ends_with_newline,
                new_ends_with_newline,
            );
            &&& more.len() > 0
            &&& more.last() == '\n'
            &&& held(more, first, second) == if mark_of(op) == first || mark_of(op) == second {
                held(content, first, second).push(text_of(op))
            } else {
                held(content, first, second)
            }
        }),
{
    let line = seq![mark_of(op)] + text_of(op);
    assert(line.skip(1) =~= text_of(op));
    assert(is_marked(line, first, second) <==> (mark_of(op) == first || mark_of(op) == second));
    assert forall|k: int| 0 <= k < line.len() implies line[k] != '\n' by {
        if k > 0 {
            assert(text_of(op).contains(text_of(op)[k - 1]));
        }
    }
    let with_line = content + line.push('\n');
    let first_wanted = first_marker(
        op,
        old_span,
        new_span,
        old_ends_with_newline,
        new_ends_with_newline,
    );
    let second_wanted = second_marker(op, new_span, new_ends_with_newline);
    let with_first = with_line + marker_text(first_wanted);
    let with_both = with_first + marker_text(second_wanted);
    lemma_held_add_line(content, line, first, second);
    lemma_held_add_marker(with_line, first_wanted, first, second);
    lemma_held_add_marker(with_first, second_wanted, first, second);
    lemma_operation_text_parts(
        op,
        old_span,
        new_span,
        old_ends_with_newline,
        new_ends_with_newline,
    );
    assert(content + operation_text(
        op,
        old_span,
        new_span,
        old_ends_with_newline,
        new_ends_with_newline,
    ) =~= with_both);
    assert(with_both.len() >= with_line.len());
    assert(with_line.last() == '\n');
}

/// The body of a script whose lines hold no line terminator holds, under two
/// marks, the texts of the operations that bear them, in order.
pub proof fn lemma_body_holds_shown_lines(
    edits: Seq<EditView>,
    old_span: Span,
    new_span: Span,
    old_ends_with_newline: bool,
    new_ends_with_newline: bool,
    first: char,
    second: char,
)
    requires
        forall|i: int| 0 <= i < edits.len() ==> is_plain(#[trigger] edits[i]),
        first != '\\',
        second != '\\',
    ensures
        ({
            let body = body_text(
                edits,
                old_span,
                new_span,
                old_ends_with_newline,
                new_ends_with_newline,
            );
            &&& body.len() == 0 || body.last() == '\n'
            &&& marked_lines(split(body), first, second) == shown_lines(edits, first, second)
        }),
    decreases edits.len(),
{
    let body = body_text(edits, old_span, new_span, old_ends_with_newline, new_ends_with_newline);
    if edits.len() == 0 {
        assert(body =~= Seq::<char>::empty());
        lemma_held_is_all(body, first, second);
        assert(split(body).drop_last() =~= Seq::<Seq<char>>::empty());
    } else {
        let front = edits.drop_last();
        let last = edits.last();
        let before = body_text(
            front,
            old_span,
            new_span,
            old_ends_with_newline,
            new_ends_with_newline,
        );
        assert(front.push(last) =~= edits);
        lemma_body_text_push(
            front,
            last,
            old_span,
            new_span,
            old_ends_with_newline,
            new_ends_with_newline,
        );
        assert forall|i: int| 0 <= i < front.len() implies is_plain(#[trigger] front[i]) by {
            assert(front[i] == edits[i]);
        }
        lemma_body_holds_shown_lines(
            front,
            old_span,
            new_span,
            old_ends_with_newline,
            new_ends_with_newline,
            first,
            second,
        );
        lemma_held_is_all(before, first, second);
        lemma_held_add_operation(
            before,
            last,
            old_span,
            new_span,
            old_ends_with_newline,
            new_ends_with_newline,
            first,
            second,
        );
        lemma_held_is_all(body, first, second);
    }
}

/// The kept and removed lines of a script are its source side. Its kept and
/// added lines are its target side where every line that it keeps holds the
/// same text on both sides.
pub proof fn lemma_shown_lines_are_sides(edits: Seq<EditView>)
    ensures
        shown_lines(edits, ' ', '-') == texts_of(old_side(edits)),
        (forall|i: int| 0 <= i < edits.len() ==> keeps_text(#[trigger] edits[i])) ==> shown_lines(
            edits,
            ' ',
            '+',
        ) == texts_of(new_side(edits)),
    decreases edits.len(),
{
    if edits.len() == 0 {
        assert(texts_of(old_side(edits)) =~= Seq::<Seq<char>>::empty());
        assert(texts_of(new_side(edits)) =~= Seq::<Seq<char>>::empty());
    } else {
        let front = edits.drop_last();
        let last = edits.last();
        assert(front.push(last) =~= edits);
        lemma_shown_lines_are_sides(front);
        lemma_sides_push(front, last);
        assert(texts_of(old_side(edits)) =~= shown_lines(edits, ' ', '-'));
        if forall|i: int| 0 <= i < edits.len() ==> keeps_text(#[trigger] edits[i]) {
            assert forall|i: int| 0 <= i < front.len() implies keeps_text(#[trigger] front[i]) by {
                assert(front[i] == edits[i]);
            }
            assert(keeps_text(edits[edits.len() - 1]));
            assert(texts_of(new_side(edits)) =~= shown_lines(edits, ' ', '+'));
        }
    }
}

} // verus!
