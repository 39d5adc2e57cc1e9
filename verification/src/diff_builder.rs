//! Rendering an edit script as unified-diff text.

use vstd::prelude::*;
use vstd::string::StringExecFns;
use crate::change_range::{lemma_max_is, lemma_min_is, numbers_of, ChangeRange, Span};
use crate::decimal::push_decimal;
use crate::differ::{diff, lemma_line_diff_sides, unified_diff};
use crate::lines::{ends_with_newline, is_terminated};
use crate::edit::{line_numbers, present, EditOperation};
use crate::file::File;
use crate::text::{
    body_text, diff_text, header_text, lemma_body_text_push, lemma_numbers_push, marker_text,
    new_numbers, old_numbers, operation_text, range_text, NO_NEWLINE_AT_END_OF_FILE,
};

verus! {

/// The unified-diff formatter. It has no state: every operation is a function
/// of its arguments.
pub struct DiffBuilder {}

impl DiffBuilder {
    /// The unified diff of two files: their lines are compared with the help
    /// of the engine, as far as the files are within its limit, and the edit
    /// operations found are rendered as one hunk.
    pub fn build(source_file: File, target_file: File) -> (result: String)
        ensures
            result@ == unified_diff(
                source_file.path@,
                source_file.content@,
                target_file.path@,
                target_file.content@,
            ),
    {
        let edits = diff(source_file.content.as_str(), target_file.content.as_str());
        proof {
            lemma_line_diff_sides(source_file.content@, target_file.content@);
        }
        Self::render(&source_file, &target_file, &edits)
    }

    /// The unified diff that an edit script stands for: the header with both
    /// paths, the range line, and one line for each operation. The files'
    /// contents decide only whether a marker follows the last line of a
    /// side.
    ///
    /// The range of each side must fit a `u64`: only a script that touches
    /// both line 0 and the greatest line number of a side has none that
    /// does.
    pub fn render(source_file: &File, target_file: &File, edits: &Vec<EditOperation>) -> (result:
        String)
        requires
            Span::of(old_numbers(edits.deep_view())).count <= u64::MAX,
            Span::of(new_numbers(edits.deep_view())).count <= u64::MAX,
        ensures
            result@ == diff_text(
                source_file.path@,
                target_file.path@,
                edits.deep_view(),
                is_terminated(source_file.content@),
                is_terminated(target_file.content@),
            ),
    {
        let mut result = String::new();
        let (old_change_range, new_change_range) = Self::calculate_change_range(edits);
        let old_has_new_line = ends_with_newline(source_file.content.as_str());
        let new_has_new_line = ends_with_newline(target_file.content.as_str());
        Self::push_header(&mut result, source_file, target_file);
        Self::push_change_range(&mut result, &old_change_range, &new_change_range);
        Self::push_change(
            &mut result,
            edits,
            &old_change_range,
            &new_change_range,
            old_has_new_line,
            new_has_new_line,
        );
        result
    }

    /// The ranges of the source side and of the target side: each spans the
    /// line numbers that the script touches on that side, and must fit a
    /// `u64`.
    pub fn calculate_change_range(edits: &Vec<EditOperation>) -> (ranges: (ChangeRange, ChangeRange))
        requires
            Span::of(old_numbers(edits.deep_view())).count <= u64::MAX,
            Span::of(new_numbers(edits.deep_view())).count <= u64::MAX,
        ensures
            ranges.0@ == Span::of(old_numbers(edits.deep_view())),
            ranges.1@ == Span::of(new_numbers(edits.deep_view())),
    {
        let ghost ops = edits.deep_view();
        let mut old_line_numbers: Vec<u64> = Vec::new();
        let mut new_line_numbers: Vec<u64> = Vec::new();
        let mut i: usize = 0;
        while i < edits.len()
            invariant
                i <= edits.len(),
                ops == edits.deep_view(),
                numbers_of(old_line_numbers@) =~= old_numbers(ops.take(i as int)),
                numbers_of(new_line_numbers@) =~= new_numbers(ops.take(i as int)),
            decreases edits.len() - i,
        {
            proof {
                let op = ops[i as int];
                assert(ops.take(i as int).push(op) =~= ops.take(i + 1));
                lemma_numbers_push(ops.take(i as int), op);
                assert(op.old_line() matches Some(line) ==> line_numbers(present(op.old_line()))
                    =~= seq![line.number]);
                assert(op.new_line() matches Some(line) ==> line_numbers(present(op.new_line()))
                    =~= seq![line.number]);
                assert(op.old_line() is None ==> line_numbers(present(op.old_line()))
                    =~= Seq::<int>::empty());
                assert(op.new_line() is None ==> line_numbers(present(op.new_line()))
                    =~= Seq::<int>::empty());
            }
            match &edits[i] {
                EditOperation::Delete { old } => {
                    old_line_numbers.push(old.number);
                },
                EditOperation::Insert { new } => {
                    new_line_numbers.push(new.number);
                },
                EditOperation::Equal { old, new } => {
                    old_line_numbers.push(old.number);
                    new_line_numbers.push(new.number);
                },
            }
            i += 1;
        }
        assert(ops.take(edits.len() as int) =~= ops);
        let old_change_range = Self::calculate_change_range_impl(&mut old_line_numbers);
        let new_change_range = Self::calculate_change_range_impl(&mut new_line_numbers);
        (old_change_range, new_change_range)
    }

    /// The range that spans `line_numbers`, from the least to the greatest;
    /// it must fit a `u64`. The numbers are left as they were.
    pub fn calculate_change_range_impl(line_numbers: &mut Vec<u64>) -> (range: ChangeRange)
        requires
            Span::of(numbers_of(old(line_numbers)@)).count <= u64::MAX,
        ensures
            final(line_numbers)@ == old(line_numbers)@,
            range@ == Span::of(numbers_of(old(line_numbers)@)),
    {
        let n = line_numbers.len();
        if n == 0 {
            return ChangeRange { start: 0, count: 0 };
        }
        let ghost numbers = numbers_of(line_numbers@);
        let mut least: u64 = line_numbers[0];
        let mut greatest: u64 = line_numbers[0];
        let mut i: usize = 1;
        while i < n
            invariant
                1 <= i <= n,
                n == line_numbers.len(),
                line_numbers@ == old(line_numbers)@,
                numbers == numbers_of(line_numbers@),
                exists|j: int| 0 <= j < i && numbers[j] == least,
                exists|j: int| 0 <= j < i && numbers[j] == greatest,
                forall|j: int| 0 <= j < i ==> least <= #[trigger] numbers[j] <= greatest,
            decreases n - i,
        {
            let number = line_numbers[i];
            if number < least {
                least = number;
            }
            if number > greatest {
                greatest = number;
            }
            assert(numbers[i as int] == number);
            i += 1;
        }
        proof {
            lemma_min_is(numbers, least as int);
            lemma_max_is(numbers, greatest as int);
        }
        ChangeRange { start: least, count: greatest - least + 1 }
    }

    /// Appends the two header lines.
    pub fn push_header(result: &mut String, source_file: &File, target_file: &File)
        ensures
            final(result)@ == old(result)@ + header_text(source_file.path@, target_file.path@),
    {
        result.append("--- ");
        result.append(source_file.path.as_str());
        result.append("\n");
        result.append("+++ ");
        result.append(target_file.path.as_str());
        result.append("\n");
    }

    /// Appends the range line of the hunk.
    pub fn push_change_range(
        result: &mut String,
        old_change_range: &ChangeRange,
        new_change_range: &ChangeRange,
    )
        ensures
            final(result)@ == old(result)@ + range_text(old_change_range@, new_change_range@),
    {
        result.append("@@ -");
        push_decimal(result, old_change_range.start);
        result.append(",");
        push_decimal(result, old_change_range.count);
        result.append(" +");
        push_decimal(result, new_change_range.start);
        result.append(",");
        push_decimal(result, new_change_range.count);
        result.append(" @@\n");
    }

    /// Appends the marker line where `wanted`.
    fn push_marker(result: &mut String, wanted: bool)
        ensures
            final(result)@ == old(result)@ + marker_text(wanted),
    {
        if wanted {
            result.append(NO_NEWLINE_AT_END_OF_FILE);
        }
    }

    /// Appends the text of one operation.
    fn push_operation(
        result: &mut String,
        edit: &EditOperation,
        old_change_range: &ChangeRange,
        new_change_range: &ChangeRange,
        old_has_new_line: bool,
        new_has_new_line: bool,
    )
        ensures
            final(result)@ == old(result)@ + operation_text(
                edit@,
                old_change_range@,
                new_change_range@,
                old_has_new_line,
                new_has_new_line,
            ),
    {
        match edit {
            EditOperation::Delete { old } => {
                result.append("-");
                result.append(old.text.as_str());
                result.append("\n");
                Self::push_marker(
                    result,
                    !old_has_new_line && old_change_range.ends_at(old.number),
                );
            },
            EditOperation::Insert { new } => {
                result.append("+");
                result.append(new.text.as_str());
                result.append("\n");
                Self::push_marker(
                    result,
                    !new_has_new_line && new_change_range.ends_at(new.number),
                );
            },
            EditOperation::Equal { old, new } => {
                result.append(" ");
                result.append(old.text.as_str());
                result.append("\n");
                Self::push_marker(
                    result,
                    !old_has_new_line && old_change_range.ends_at(old.number),
                );
                Self::push_marker(
                    result,
                    !new_has_new_line && new_change_range.ends_at(new.number),
                );
            },
        }
    }

    /// Appends the body of the hunk: one prefixed line for each operation, in
    /// order, and the marker line after the last line of a side whose file
    /// does not end with a line terminator.
    pub fn push_change(
        result: &mut String,
        edits: &Vec<EditOperation>,
        old_change_range: &ChangeRange,
        new_change_range: &ChangeRange,
        old_has_new_line: bool,
        new_has_new_line: bool,
    )
        ensures
            final(result)@ == old(result)@ + body_text(
                edits.deep_view(),
                old_change_range@,
                new_change_range@,
                old_has_new_line,
                new_has_new_line,
            ),
    {
        let ghost ops = edits.deep_view();
        let ghost old_span = old_change_range@;
        let ghost new_span = new_change_range@;
        let ghost before = result@;
        assert(body_text(ops.take(0), old_span, new_span, old_has_new_line, new_has_new_line)
            =~= Seq::<char>::empty());
        let mut i: usize = 0;
        while i < edits.len()
            invariant
                i <= edits.len(),
                ops == edits.deep_view(),
                old_span == old_change_range@,
                new_span == new_change_range@,
                result@ == before + body_text(
                    ops.take(i as int),
                    old_span,
                    new_span,
                    old_has_new_line,
                    new_has_new_line,
                ),
            decreases edits.len() - i,
        {
            let ghost so_far = body_text(
                ops.take(i as int),
                old_span,
                new_span,
                old_has_new_line,
                new_has_new_line,
            );
            let ghost next = operation_text(
                ops[i as int],
                old_span,
                new_span,
                old_has_new_line,
                new_has_new_line,
            );
            Self::push_operation(
                result,
                &edits[i],
                old_change_range,
                new_change_range,
                old_has_new_line,
                new_has_new_line,
            );
            proof {
                lemma_body_text_push(
                    ops.take(i as int),
                    ops[i as int],
                    old_span,
                    new_span,
                    old_has_new_line,
                    new_has_new_line,
                );
                assert(ops.take(i as int).push(ops[i as int]) =~= ops.take(i + 1));
                assert(result@ =~= before + (so_far + next));
            }
            i += 1;
        }
        assert(ops.take(edits.len() as int) =~= ops);
    }
}

} // verus!
