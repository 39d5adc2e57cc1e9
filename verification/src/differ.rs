//! The line diff of two texts.

use vstd::prelude::*;
use crate::change_range::Span;
use crate::edit::{new_side, old_side, EditOperation, EditView};
use crate::engine::{consult, consulted_script, Modification, Op};
use crate::lines::{is_terminated, lines_of, split_lines};
use crate::script::{
    edit_operations, edit_script, first_fitting, fits_at, fitting_start, lemma_edit_script_sides,
    lemma_fitting_start_is_before, lemma_span_of_numbered, numbered, whole_span,
};
use crate::text::{diff_text, new_numbers, old_numbers};

verus! {

/// The script for two files, recovered from the engine. The engine is
/// consulted for both files, and its script is followed back from its last
/// entry for as long as the entries fit. What the script lacks at its start
/// is recovered in the same way from the lines before the first entry that
/// fits, until the engine has nothing that fits to say of them.
///
/// The lines before an entry that fits are always fewer than the lines it
/// was found in (`lemma_recovery_goes_on`); the definition asks for it so
/// that it is seen to end.
pub open spec fn recovered_script(
    old_lines: Seq<Seq<char>>,
    new_lines: Seq<Seq<char>>,
) -> Seq<Modification>
    decreases old_lines.len() + new_lines.len(),
{
    let script = consulted_script(old_lines, new_lines);
    let first = fitting_start(
        old_lines,
        new_lines,
        script,
        old_lines.len() as int,
        new_lines.len() as int,
    );
    if first < script.len() {
        let old_before = old_lines.take(script[first].old_before());
        let new_before = new_lines.take(script[first].new_before());
        if old_before.len() + new_before.len() < old_lines.len() + new_lines.len() {
            recovered_script(old_before, new_before) + script.skip(first)
        } else {
            script.skip(first)
        }
    } else {
        Seq::empty()
    }
}

/// Recovery leaves nothing out: where an entry of the consulted script fits,
/// the script for the lines before it is recovered too.
pub proof fn lemma_recovery_goes_on(old_lines: Seq<Seq<char>>, new_lines: Seq<Seq<char>>)
    ensures
        ({
            let script = consulted_script(old_lines, new_lines);
            let first = fitting_start(
                old_lines,
                new_lines,
                script,
                old_lines.len() as int,
                new_lines.len() as int,
            );
            first < script.len() ==> recovered_script(old_lines, new_lines) == recovered_script(
                old_lines.take(script[first].old_before()),
                new_lines.take(script[first].new_before()),
            ) + script.skip(first)
        }),
{
    let script = consulted_script(old_lines, new_lines);
    let first = fitting_start(
        old_lines,
        new_lines,
        script,
        old_lines.len() as int,
        new_lines.len() as int,
    );
    if first < script.len() {
        lemma_fitting_start_is_before(
            old_lines,
            new_lines,
            script,
            old_lines.len() as int,
            new_lines.len() as int,
        );
    }
}

/// The edit operations that turn one text into another, line by line: the
/// edit script made from the script that is recovered from the engine.
pub open spec fn line_diff(old_text: Seq<char>, new_text: Seq<char>) -> Seq<EditView> {
    let old_lines = lines_of(old_text);
    let new_lines = lines_of(new_text);
    edit_script(old_lines, new_lines, recovered_script(old_lines, new_lines))
}

/// The unified diff of two files, from their paths and contents.
pub open spec fn unified_diff(
    source_path: Seq<char>,
    source_content: Seq<char>,
    target_path: Seq<char>,
    target_content: Seq<char>,
) -> Seq<char> {
    diff_text(
        source_path,
        target_path,
        line_diff(source_content, target_content),
        is_terminated(source_content),
        is_terminated(target_content),
    )
}

/// Whatever the engine returned, the line diff of two texts holds every line
/// of the old text on its source side and every line of the new text on its
/// target side, each once, in order and under its number; so its ranges span
/// the whole of both.
pub proof fn lemma_line_diff_sides(old_text: Seq<char>, new_text: Seq<char>)
    ensures
        old_side(line_diff(old_text, new_text)) == numbered(lines_of(old_text)),
        new_side(line_diff(old_text, new_text)) == numbered(lines_of(new_text)),
        Span::of(old_numbers(line_diff(old_text, new_text))) == whole_span(lines_of(old_text)),
        Span::of(new_numbers(line_diff(old_text, new_text))) == whole_span(lines_of(new_text)),
{
    let old_lines = lines_of(old_text);
    let new_lines = lines_of(new_text);
    lemma_edit_script_sides(old_lines, new_lines, recovered_script(old_lines, new_lines));
    lemma_span_of_numbered(old_lines);
    lemma_span_of_numbered(new_lines);
}

/// A copy of some lines.
fn copy_of(lines: &Vec<String>) -> (copy: Vec<String>)
    ensures
        copy.deep_view() == lines.deep_view(),
{
    let mut copy: Vec<String> = Vec::new();
    let mut t: usize = 0;
    while t < lines.len()
        invariant
            t <= lines.len(),
            copy.deep_view() =~= lines.deep_view().take(t as int),
        decreases lines.len() - t,
    {
        let ghost so_far = copy.deep_view();
        copy.push(lines[t].clone());
        assert(copy.deep_view() =~= so_far.push(lines.deep_view()[t as int]));
        t += 1;
    }
    assert(lines.deep_view().take(lines.len() as int) =~= lines.deep_view());
    copy
}

/// Recovers the script for two files from the engine.
pub fn recover_script(old_lines: &Vec<String>, new_lines: &Vec<String>) -> (script: Vec<
    Modification,
>)
    ensures
        script@ == recovered_script(old_lines.deep_view(), new_lines.deep_view()),
{
    let ghost whole = recovered_script(old_lines.deep_view(), new_lines.deep_view());
    let mut old_before = copy_of(old_lines);
    let mut new_before = copy_of(new_lines);
    // The entries found so far, the last one first.
    let mut found: Vec<Modification> = Vec::new();
    loop
        invariant
            whole.len() == recovered_script(old_before.deep_view(), new_before.deep_view()).len()
                + found.len(),
            recovered_script(old_before.deep_view(), new_before.deep_view()).is_prefix_of(whole),
            forall|t: int| 0 <= t < found.len() ==> found@[t] == whole[whole.len() - 1 - t],
        ensures
            recovered_script(old_before.deep_view(), new_before.deep_view()).len() == 0,
        decreases old_before.len() + new_before.len(),
    {
        let ghost rest = recovered_script(old_before.deep_view(), new_before.deep_view());
        let script = consult(&old_before, &new_before);
        let first = first_fitting(&old_before, &new_before, &script);
        if first >= script.len() {
            break;
        }
        assert(fits_at(old_before.deep_view(), new_before.deep_view(), script@, first as int));
        let step = &script[first];
        let (old_end, new_end) = match step.op {
            Op::Delete => (step.line1 - 1, step.line2),
            Op::Insert => (step.line1, step.line2 - 1),
        };
        let ghost before_first = recovered_script(
            old_before.deep_view().take(old_end as int),
            new_before.deep_view().take(new_end as int),
        );
        assert(rest == before_first + script@.skip(first as int));
        let ghost found_before = found@;
        let mut next: usize = script.len();
        while next > first
            invariant
                first <= next <= script.len(),
                found@.len() == found_before.len() + (script.len() - next),
                forall|t: int| 0 <= t < found_before.len() ==> found@[t] == found_before[t],
                forall|t: int|
                    next <= t < script.len() ==> found@[found_before.len() + script.len() - 1
                        - t] == #[trigger] script@[t],
            decreases next,
        {
            found.push(script[next - 1]);
            next -= 1;
        }
        let ghost old_lines_before = old_before.deep_view();
        let ghost new_lines_before = new_before.deep_view();
        old_before.truncate(old_end);
        new_before.truncate(new_end);
        proof {
            assert(old_before.deep_view() =~= old_lines_before.take(old_end as int));
            assert(new_before.deep_view() =~= new_lines_before.take(new_end as int));
            let tail = script@.skip(first as int);
            assert(before_first =~= rest.subrange(0, before_first.len() as int));
            assert(rest =~= whole.subrange(0, rest.len() as int));
            assert(before_first =~= whole.subrange(0, before_first.len() as int));
            assert forall|t: int| 0 <= t < found.len() implies found@[t] == whole[whole.len() - 1
                - t] by {
                if t >= found_before.len() {
                    let at = found_before.len() + script.len() - 1 - t;
                    assert(found@[found_before.len() + script.len() - 1 - at] == script@[at]);
                    assert(tail[at - first] == script@[at]);
                    assert(rest[before_first.len() + at - first] == tail[at - first]);
                    assert(whole.subrange(0, rest.len() as int)[before_first.len() + at - first]
                        == whole[before_first.len() + at - first]);
                } else {
                    assert(found@[t] == found_before[t]);
                }
            }
        }
    }
    let mut script: Vec<Modification> = Vec::new();
    let mut next: usize = found.len();
    while next > 0
        invariant
            next <= found.len() == whole.len(),
            script@.len() == found.len() - next,
            forall|t: int| 0 <= t < found.len() ==> found@[t] == whole[whole.len() - 1 - t],
            forall|t: int| 0 <= t < script@.len() ==> script@[t] == whole[t],
        decreases next,
    {
        script.push(found[next - 1]);
        next -= 1;
    }
    assert(script@ =~= whole);
    script
}

/// Compares two texts line by line.
pub fn diff(old_text: &str, new_text: &str) -> (edits: Vec<EditOperation>)
    ensures
        edits.deep_view() == line_diff(old_text@, new_text@),
        lines_of(old_text@).len() <= usize::MAX,
        lines_of(new_text@).len() <= usize::MAX,
{
    let old_lines = split_lines(old_text);
    let new_lines = split_lines(new_text);
    assert(old_lines.deep_view().len() == old_lines.len());
    assert(new_lines.deep_view().len() == new_lines.len());
    let script = recover_script(&old_lines, &new_lines);
    edit_operations(&old_lines, &new_lines, &script)
}

} // verus!
