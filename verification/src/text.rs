//! What the unified-diff text is, as sequences of characters.

use vstd::prelude::*;
use crate::change_range::Span;
use crate::decimal::decimal;
use crate::edit::{lemma_sides_push, line_numbers, new_side, old_side, present, EditView};

verus! {

/// The line that follows the last line of a file that does not end with a
/// line terminator.
pub const NO_NEWLINE_AT_END_OF_FILE: &'static str = "\\ No newline at end of file\n";

/// The two header lines: the source path after `--- `, the target path after
/// `+++ `.
pub open spec fn header_text(source_path: Seq<char>, target_path: Seq<char>) -> Seq<char> {
    "--- "@ + source_path + "\n"@ + "+++ "@ + target_path + "\n"@
}

/// The hunk's range line: start and count of the source side, then of the
/// target side, in decimal.
pub open spec fn range_text(old_span: Span, new_span: Span) -> Seq<char> {
    "@@ -"@ + decimal(old_span.start) + ","@ + decimal(old_span.count) + " +"@ + decimal(
        new_span.start,
    ) + ","@ + decimal(new_span.count) + " @@\n"@
}

/// The marker line where `wanted`, nothing otherwise.
pub open spec fn marker_text(wanted: bool) -> Seq<char> {
    if wanted {
        NO_NEWLINE_AT_END_OF_FILE@
    } else {
        Seq::empty()
    }
}

/// The text of one operation: its prefixed line, then a marker line for each
/// side that is unterminated and whose last line this operation holds.
pub open spec fn operation_text(
    op: EditView,
    old_span: Span,
    new_span: Span,
    old_ends_with_newline: bool,
    new_ends_with_newline: bool,
) -> Seq<char> {
    match op {
        EditView::Delete { old } => "-"@ + old.text + "\n"@ + marker_text(
            !old_ends_with_newline && old_span.ends_at(old.number),
        ),
        EditView::Insert { new } => "+"@ + new.text + "\n"@ + marker_text(
            !new_ends_with_newline && new_span.ends_at(new.number),
        ),
        EditView::Equal { old, new } => " "@ + old.text + "\n"@ + marker_text(
            !old_ends_with_newline && old_span.ends_at(old.number),
        ) + marker_text(!new_ends_with_newline && new_span.ends_at(new.number)),
    }
}

/// The body of the hunk: the text of every operation, in order.
pub open spec fn body_text(
    edits: Seq<EditView>,
    old_span: Span,
    new_span: Span,
    old_ends_with_newline: bool,
    new_ends_with_newline: bool,
) -> Seq<char> {
    edits.map_values(
        |op: EditView|
            operation_text(op, old_span, new_span, old_ends_with_newline, new_ends_with_newline),
    ).flatten()
}

/// The source line numbers that the script touches, in order.
pub open spec fn old_numbers(edits: Seq<EditView>) -> Seq<int> {
    line_numbers(old_side(edits))
}

/// The target line numbers that the script touches, in order.
pub open spec fn new_numbers(edits: Seq<EditView>) -> Seq<int> {
    line_numbers(new_side(edits))
}

/// The line numbers that a script touches grow by those of the operation
/// that the script grows by.
pub proof fn lemma_numbers_push(edits: Seq<EditView>, op: EditView)
    ensures
        old_numbers(edits.push(op)) == old_numbers(edits) + line_numbers(present(op.old_line())),
        new_numbers(edits.push(op)) == new_numbers(edits) + line_numbers(present(op.new_line())),
{
    lemma_sides_push(edits, op);
    assert(line_numbers(old_side(edits) + present(op.old_line())) =~= line_numbers(
        old_side(edits),
    ) + line_numbers(present(op.old_line())));
    assert(line_numbers(new_side(edits) + present(op.new_line())) =~= line_numbers(
        new_side(edits),
    ) + line_numbers(present(op.new_line())));
}

/// The whole unified diff: header, range line, body. The script is one hunk
/// whose ranges span all the line numbers it touches on each side.
pub open spec fn diff_text(
    source_path: Seq<char>,
    target_path: Seq<char>,
    edits: Seq<EditView>,
    old_ends_with_newline: bool,
    new_ends_with_newline: bool,
) -> Seq<char> {
    let old_span = Span::of(old_numbers(edits));
    let new_span = Span::of(new_numbers(edits));
    header_text(source_path, target_path) + range_text(old_span, new_span) + body_text(
        edits,
        old_span,
        new_span,
        old_ends_with_newline,
        new_ends_with_newline,
    )
}

/// The body grows by the text of each operation that the script grows by.
pub proof fn lemma_body_text_push(
    edits: Seq<EditView>,
    op: EditView,
    old_span: Span,
    new_span: Span,
    old_ends_with_newline: bool,
    new_ends_with_newline: bool,
)
    ensures
        body_text(edits.push(op), old_span, new_span, old_ends_with_newline, new_ends_with_newline)
            == body_text(edits, old_span, new_span, old_ends_with_newline, new_ends_with_newline)
            + operation_text(op, old_span, new_span, old_ends_with_newline, new_ends_with_newline),
{
    let text = |op: EditView|
        operation_text(op, old_span, new_span, old_ends_with_newline, new_ends_with_newline);
    assert(edits.push(op).map_values(text) =~= edits.map_values(text).push(text(op)));
    edits.map_values(text).lemma_flatten_push(text(op));
}

} // verus!
