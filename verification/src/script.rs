//! From the engine's script to the edit operations of a diff.
//!
//! The engine's script is followed back from the end of both files for as
//! long as each entry fits the lines; what is left at the start of the files
//! is told apart by the lines they share at their ends. Nothing is taken on
//! trust from the script: whatever it holds, the operations made from it
//! hold every line of both files, each once and in order.

use vstd::prelude::*;
use crate::change_range::{lemma_max_is, lemma_min_is, Span};
use crate::edit::{
    lemma_sides_concat, lemma_sides_push, line_numbers, new_side, old_side, EditOperation,
    EditView, Line, LineView,
};
use crate::engine::{Modification, Op};
use crate::shared::{
    common_prefix, common_prefix_len, common_suffix, common_suffix_len,
    lemma_common_prefix_agrees, lemma_common_prefix_bounds, lemma_common_prefix_is,
    lemma_common_suffix_agrees, lemma_common_suffix_bounds,
};

verus! {

/// The line at `index` (from 0) with its number (from 1).
pub open spec fn numbered_line(lines: Seq<Seq<char>>, index: int) -> LineView {
    LineView { number: index + 1, text: lines[index] }
}

/// All the lines of a file with their numbers.
pub open spec fn numbered(lines: Seq<Seq<char>>) -> Seq<LineView> {
    Seq::new(lines.len(), |t: int| numbered_line(lines, t))
}

/// `count` lines that both files have: from `old_from` in the old file, from
/// `new_from` in the new one.
pub open spec fn equal_run(
    old_lines: Seq<Seq<char>>,
    new_lines: Seq<Seq<char>>,
    old_from: int,
    new_from: int,
    count: int,
) -> Seq<EditView> {
    Seq::new(
        count as nat,
        |t: int|
            EditView::Equal {
                old: numbered_line(old_lines, old_from + t),
                new: numbered_line(new_lines, new_from + t),
            },
    )
}

/// `count` lines from `from` on that only the old file has.
pub open spec fn delete_run(old_lines: Seq<Seq<char>>, from: int, count: int) -> Seq<EditView> {
    Seq::new(count as nat, |t: int| EditView::Delete { old: numbered_line(old_lines, from + t) })
}

/// `count` lines from `from` on that only the new file has.
pub open spec fn insert_run(new_lines: Seq<Seq<char>>, from: int, count: int) -> Seq<EditView> {
    Seq::new(count as nat, |t: int| EditView::Insert { new: numbered_line(new_lines, from + t) })
}

/// The diff that looks no further than the files' ends: the lines shared at
/// the start are equal, then every other old line up to the shared end is
/// deleted, every other new line inserted, and the lines shared at the end
/// are equal.
pub open spec fn coarse_script(old_lines: Seq<Seq<char>>, new_lines: Seq<Seq<char>>) -> Seq<
    EditView,
> {
    let shared_start = common_prefix(old_lines, new_lines) as int;
    let shared_end = common_suffix(old_lines.skip(shared_start), new_lines.skip(shared_start))
        as int;
    equal_run(old_lines, new_lines, 0, 0, shared_start) + delete_run(
        old_lines,
        shared_start,
        old_lines.len() - shared_start - shared_end,
    ) + insert_run(new_lines, shared_start, new_lines.len() - shared_start - shared_end)
        + equal_run(
        old_lines,
        new_lines,
        old_lines.len() - shared_end,
        new_lines.len() - shared_end,
        shared_end,
    )
}

/// The edit operation that an entry of the engine's script stands for.
pub open spec fn step_edit(
    step: Modification,
    old_lines: Seq<Seq<char>>,
    new_lines: Seq<Seq<char>>,
) -> EditView {
    match step.op {
        Op::Delete => EditView::Delete { old: numbered_line(old_lines, step.line1 - 1) },
        Op::Insert => EditView::Insert { new: numbered_line(new_lines, step.line2 - 1) },
    }
}

/// Whether the files hold the same `count` lines from `old_from` in the old
/// file and from `new_from` in the new one.
#[verifier::opaque]
pub open spec fn same_lines(
    old_lines: Seq<Seq<char>>,
    new_lines: Seq<Seq<char>>,
    old_from: int,
    new_from: int,
    count: int,
) -> bool {
    forall|t: int|
        old_from <= t < old_from + count ==> #[trigger] old_lines[t] == new_lines[t - old_from
            + new_from]
}

/// Whether `step`, and equal lines after it, lead to the point where
/// `old_end` lines of the old file and `new_end` lines of the new one are
/// accounted for: the line it names exists, and from it to that point the
/// files hold the same lines.
pub open spec fn step_fits(
    old_lines: Seq<Seq<char>>,
    new_lines: Seq<Seq<char>>,
    step: Modification,
    old_end: int,
    new_end: int,
) -> bool {
    &&& step.old_before() >= 0
    &&& step.new_before() >= 0
    &&& step.line1 <= old_end
    &&& step.line2 <= new_end
    &&& old_end - step.line1 == new_end - step.line2
    &&& same_lines(
        old_lines,
        new_lines,
        step.line1 as int,
        step.line2 as int,
        old_end - step.line1,
    )
}

/// The edit operations for the first `old_end` old lines and the first
/// `new_end` new lines. The script is followed back from its last entry for
/// as long as the entries fit; the lines before the first entry that fits
/// get the coarse script.
pub open spec fn edits_up_to(
    old_lines: Seq<Seq<char>>,
    new_lines: Seq<Seq<char>>,
    script: Seq<Modification>,
    old_end: int,
    new_end: int,
) -> Seq<EditView>
    decreases script.len(),
{
    if script.len() > 0 && step_fits(old_lines, new_lines, script.last(), old_end, new_end) {
        let step = script.last();
        edits_up_to(
            old_lines,
            new_lines,
            script.drop_last(),
            step.old_before(),
            step.new_before(),
        ).push(step_edit(step, old_lines, new_lines)) + equal_run(
            old_lines,
            new_lines,
            step.line1 as int,
            step.line2 as int,
            old_end - step.line1,
        )
    } else {
        coarse_script(old_lines.take(old_end), new_lines.take(new_end))
    }
}

/// The edit operations that turn the old file into the new one, going by
/// `script` as far as it fits the files.
pub open spec fn edit_script(
    old_lines: Seq<Seq<char>>,
    new_lines: Seq<Seq<char>>,
    script: Seq<Modification>,
) -> Seq<EditView> {
    edits_up_to(old_lines, new_lines, script, old_lines.len() as int, new_lines.len() as int)
}

/// The index of the first entry from which on the script fits the first
/// `old_end` old lines and the first `new_end` new lines, found by going
/// back from its last entry; the script's length where not even the last
/// entry fits.
pub open spec fn fitting_start(
    old_lines: Seq<Seq<char>>,
    new_lines: Seq<Seq<char>>,
    script: Seq<Modification>,
    old_end: int,
    new_end: int,
) -> int
    decreases script.len(),
{
    if script.len() > 0 && step_fits(old_lines, new_lines, script.last(), old_end, new_end) {
        fitting_start(
            old_lines,
            new_lines,
            script.drop_last(),
            script.last().old_before(),
            script.last().new_before(),
        )
    } else {
        script.len() as int
    }
}

/// How many old lines are accounted for before entry `index` of the script;
/// all of them after its last entry.
pub open spec fn old_end_at(script: Seq<Modification>, index: int, old_len: int) -> int {
    if index < script.len() {
        script[index].old_before()
    } else {
        old_len
    }
}

/// How many new lines are accounted for before entry `index` of the script;
/// all of them after its last entry.
pub open spec fn new_end_at(script: Seq<Modification>, index: int, new_len: int) -> int {
    if index < script.len() {
        script[index].new_before()
    } else {
        new_len
    }
}

/// Whether entry `index` of the script fits the lines up to the next entry,
/// or up to the end of both files after the last.
pub open spec fn fits_at(
    old_lines: Seq<Seq<char>>,
    new_lines: Seq<Seq<char>>,
    script: Seq<Modification>,
    index: int,
) -> bool {
    let old_end = old_end_at(script, index + 1, old_lines.len() as int);
    let new_end = new_end_at(script, index + 1, new_lines.len() as int);
    &&& old_end <= old_lines.len()
    &&& new_end <= new_lines.len()
    &&& step_fits(old_lines, new_lines, script[index], old_end, new_end)
}

/// Whether every entry of the script from `first` on fits.
pub open spec fn fits_from(
    old_lines: Seq<Seq<char>>,
    new_lines: Seq<Seq<char>>,
    script: Seq<Modification>,
    first: int,
) -> bool {
    forall|t: int| first <= t < script.len() ==> #[trigger] fits_at(old_lines, new_lines, script, t)
}

/// The line at `index` with its number.
fn line_at(lines: &Vec<String>, index: usize) -> (line: Line)
    requires
        index < lines.len(),
    ensures
        line@ == numbered_line(lines.deep_view(), index as int),
{
    Line { number: (index + 1) as u64, text: lines[index].clone() }
}

/// Appends a run of lines that both files have.
fn push_equal_run(
    edits: &mut Vec<EditOperation>,
    old_lines: &Vec<String>,
    new_lines: &Vec<String>,
    old_from: usize,
    new_from: usize,
    count: usize,
)
    requires
        old_from + count <= old_lines.len(),
        new_from + count <= new_lines.len(),
    ensures
        final(edits).deep_view() == old(edits).deep_view() + equal_run(
            old_lines.deep_view(),
            new_lines.deep_view(),
            old_from as int,
            new_from as int,
            count as int,
        ),
{
    let ghost before = edits.deep_view();
    let mut t: usize = 0;
    while t < count
        invariant
            t <= count,
            old_from + count <= old_lines.len(),
            new_from + count <= new_lines.len(),
            edits.deep_view() =~= before + equal_run(
                old_lines.deep_view(),
                new_lines.deep_view(),
                old_from as int,
                new_from as int,
                t as int,
            ),
        decreases count - t,
    {
        let ghost so_far = edits.deep_view();
        let old = line_at(old_lines, old_from + t);
        let new = line_at(new_lines, new_from + t);
        let ghost next = EditView::Equal { old: old@, new: new@ };
        edits.push(EditOperation::Equal { old, new });
        proof {
            assert(edits.deep_view() =~= so_far.push(next));
            assert(equal_run(
                old_lines.deep_view(),
                new_lines.deep_view(),
                old_from as int,
                new_from as int,
                t + 1,
            ) =~= equal_run(
                old_lines.deep_view(),
                new_lines.deep_view(),
                old_from as int,
                new_from as int,
                t as int,
            ).push(next));
        }
        t += 1;
    }
}

/// Appends a run of lines that only the old file has.
fn push_delete_run(
    edits: &mut Vec<EditOperation>,
    old_lines: &Vec<String>,
    from: usize,
    count: usize,
)
    requires
        from + count <= old_lines.len(),
    ensures
        final(edits).deep_view() == old(edits).deep_view() + delete_run(
            old_lines.deep_view(),
            from as int,
            count as int,
        ),
{
    let ghost before = edits.deep_view();
    let mut t: usize = 0;
    while t < count
        invariant
            t <= count,
            from + count <= old_lines.len(),
            edits.deep_view() =~= before + delete_run(
                old_lines.deep_view(),
                from as int,
                t as int,
            ),
        decreases count - t,
    {
        let ghost so_far = edits.deep_view();
        let old = line_at(old_lines, from + t);
        let ghost next = EditView::Delete { old: old@ };
        edits.push(EditOperation::Delete { old });
        proof {
            assert(edits.deep_view() =~= so_far.push(next));
            assert(delete_run(old_lines.deep_view(), from as int, t + 1) =~= delete_run(
                old_lines.deep_view(),
                from as int,
                t as int,
            ).push(next));
        }
        t += 1;
    }
}

/// Appends a run of lines that only the new file has.
fn push_insert_run(
    edits: &mut Vec<EditOperation>,
    new_lines: &Vec<String>,
    from: usize,
    count: usize,
)
    requires
        from + count <= new_lines.len(),
    ensures
        final(edits).deep_view() == old(edits).deep_view() + insert_run(
            new_lines.deep_view(),
            from as int,
            count as int,
        ),
{
    let ghost before = edits.deep_view();
    let mut t: usize = 0;
    while t < count
        invariant
            t <= count,
            from + count <= new_lines.len(),
            edits.deep_view() =~= before + insert_run(
                new_lines.deep_view(),
                from as int,
                t as int,
            ),
        decreases count - t,
    {
        let ghost so_far = edits.deep_view();
        let new = line_at(new_lines, from + t);
        let ghost next = EditView::Insert { new: new@ };
        edits.push(EditOperation::Insert { new });
        proof {
            assert(edits.deep_view() =~= so_far.push(next));
            assert(insert_run(new_lines.deep_view(), from as int, t + 1) =~= insert_run(
                new_lines.deep_view(),
                from as int,
                t as int,
            ).push(next));
        }
        t += 1;
    }
}

/// Appends the coarse script of the first `old_end` old lines and the first
/// `new_end` new lines.
fn push_coarse(
    edits: &mut Vec<EditOperation>,
    old_lines: &Vec<String>,
    old_end: usize,
    new_lines: &Vec<String>,
    new_end: usize,
)
    requires
        old_end <= old_lines.len(),
        new_end <= new_lines.len(),
    ensures
        final(edits).deep_view() == old(edits).deep_view() + coarse_script(
            old_lines.deep_view().take(old_end as int),
            new_lines.deep_view().take(new_end as int),
        ),
{
    let ghost before = edits.deep_view();
    let ghost old_all = old_lines.deep_view();
    let ghost new_all = new_lines.deep_view();
    let ghost old_head = old_all.take(old_end as int);
    let ghost new_head = new_all.take(new_end as int);
    let shared_start = common_prefix_len(old_lines, old_end, new_lines, new_end);
    let shared_end = common_suffix_len(old_lines, old_end, new_lines, new_end, shared_start);
    let old_only = old_end - shared_start - shared_end;
    let new_only = new_end - shared_start - shared_end;
    push_equal_run(edits, old_lines, new_lines, 0, 0, shared_start);
    push_delete_run(edits, old_lines, shared_start, old_only);
    push_insert_run(edits, new_lines, shared_start, new_only);
    push_equal_run(edits, old_lines, new_lines, old_end - shared_end, new_end - shared_end, shared_end);
    proof {
        assert(old_head.skip(shared_start as int) =~= old_all.subrange(
            shared_start as int,
            old_end as int,
        ));
        assert(new_head.skip(shared_start as int) =~= new_all.subrange(
            shared_start as int,
            new_end as int,
        ));
        assert(equal_run(old_all, new_all, 0, 0, shared_start as int) =~= equal_run(
            old_head,
            new_head,
            0,
            0,
            shared_start as int,
        ));
        assert(delete_run(old_all, shared_start as int, old_only as int) =~= delete_run(
            old_head,
            shared_start as int,
            old_only as int,
        ));
        assert(insert_run(new_all, shared_start as int, new_only as int) =~= insert_run(
            new_head,
            shared_start as int,
            new_only as int,
        ));
        assert(equal_run(
            old_all,
            new_all,
            old_end - shared_end,
            new_end - shared_end,
            shared_end as int,
        ) =~= equal_run(
            old_head,
            new_head,
            old_end - shared_end,
            new_end - shared_end,
            shared_end as int,
        ));
        assert(edits.deep_view() =~= before + coarse_script(old_head, new_head));
    }
}

/// Whether `step` fits the lines up to the point where `old_end` old lines and
/// `new_end` new lines are accounted for.
pub fn fits(
    old_lines: &Vec<String>,
    new_lines: &Vec<String>,
    step: &Modification,
    old_end: usize,
    new_end: usize,
) -> (fitting: bool)
    requires
        old_end <= old_lines.len(),
        new_end <= new_lines.len(),
    ensures
        fitting == step_fits(
            old_lines.deep_view(),
            new_lines.deep_view(),
            *step,
            old_end as int,
            new_end as int,
        ),
{
    let names_a_line = match step.op {
        Op::Delete => step.line1 > 0,
        Op::Insert => step.line2 > 0,
    };
    if !names_a_line || step.line1 > old_end || step.line2 > new_end {
        return false;
    }
    if old_end - step.line1 != new_end - step.line2 {
        return false;
    }
    let ghost old_all = old_lines.deep_view();
    let ghost new_all = new_lines.deep_view();
    let old_from = step.line1;
    let new_from = step.line2;
    let count = old_end - old_from;
    let mut t: usize = 0;
    while t < count
        invariant
            t <= count,
            old_from == step.line1,
            new_from == step.line2,
            count == old_end - old_from,
            old_from + count <= old_lines.len(),
            new_from + count <= new_lines.len(),
            old_all == old_lines.deep_view(),
            new_all == new_lines.deep_view(),
            forall|u: int|
                old_from <= u < old_from + t ==> #[trigger] old_all[u] == new_all[u - old_from
                    + new_from],
        decreases count - t,
    {
        if old_lines[old_from + t] != new_lines[new_from + t] {
            proof {
                reveal(same_lines);
                let u = old_from + t;
                assert(old_all[u] != new_all[u - old_from + new_from]);
            }
            return false;
        }
        t += 1;
    }
    proof {
        reveal(same_lines);
    }
    true
}

/// How many old and new lines are accounted for before entry `index` of the
/// script.
fn ends_at(script: &Vec<Modification>, index: usize, old_len: usize, new_len: usize) -> (ends: (
    usize,
    usize,
))
    requires
        index < script.len() ==> script@[index as int].old_before() >= 0 && script@[index as int].new_before()
            >= 0,
    ensures
        ends.0 == old_end_at(script@, index as int, old_len as int),
        ends.1 == new_end_at(script@, index as int, new_len as int),
{
    if index < script.len() {
        let step = &script[index];
        match step.op {
            Op::Delete => (step.line1 - 1, step.line2),
            Op::Insert => (step.line1, step.line2 - 1),
        }
    } else {
        (old_len, new_len)
    }
}

/// The first entry from which on the script fits the files, found by going
/// back from its last entry.
pub fn first_fitting(
    old_lines: &Vec<String>,
    new_lines: &Vec<String>,
    script: &Vec<Modification>,
) -> (first: usize)
    ensures
        first <= script.len(),
        first == fitting_start(
            old_lines.deep_view(),
            new_lines.deep_view(),
            script@,
            old_lines.len() as int,
            new_lines.len() as int,
        ),
        fits_from(old_lines.deep_view(), new_lines.deep_view(), script@, first as int),
        0 <= old_end_at(script@, first as int, old_lines.len() as int) <= old_lines.len(),
        0 <= new_end_at(script@, first as int, new_lines.len() as int) <= new_lines.len(),
        first > 0 ==> !step_fits(
            old_lines.deep_view(),
            new_lines.deep_view(),
            script@[first - 1],
            old_end_at(script@, first as int, old_lines.len() as int),
            new_end_at(script@, first as int, new_lines.len() as int),
        ),
{
    let ghost old_all = old_lines.deep_view();
    let ghost new_all = new_lines.deep_view();
    let mut first: usize = script.len();
    let mut old_end: usize = old_lines.len();
    let mut new_end: usize = new_lines.len();
    assert(script@.take(first as int) =~= script@);
    while first > 0
        invariant
            first <= script.len(),
            fitting_start(
                old_all,
                new_all,
                script@,
                old_lines.len() as int,
                new_lines.len() as int,
            ) == fitting_start(
                old_all,
                new_all,
                script@.take(first as int),
                old_end as int,
                new_end as int,
            ),
            old_end <= old_lines.len(),
            new_end <= new_lines.len(),
            old_all == old_lines.deep_view(),
            new_all == new_lines.deep_view(),
            old_end == old_end_at(script@, first as int, old_lines.len() as int),
            new_end == new_end_at(script@, first as int, new_lines.len() as int),
            fits_from(old_all, new_all, script@, first as int),
        decreases first,
    {
        let step = &script[first - 1];
        proof {
            let taken = script@.take(first as int);
            assert(taken.last() == script@[first - 1]);
            assert(taken.drop_last() =~= script@.take(first - 1));
        }
        if !fits(old_lines, new_lines, step, old_end, new_end) {
            return first;
        }
        assert(fits_at(old_all, new_all, script@, first - 1));
        match step.op {
            Op::Delete => {
                old_end = step.line1 - 1;
                new_end = step.line2;
            },
            Op::Insert => {
                old_end = step.line1;
                new_end = step.line2 - 1;
            },
        }
        first -= 1;
    }
    first
}

/// The edit operations that turn the old file into the new one, going by
/// `script` as far as it fits the files.
pub fn edit_operations(
    old_lines: &Vec<String>,
    new_lines: &Vec<String>,
    script: &Vec<Modification>,
) -> (edits: Vec<EditOperation>)
    ensures
        edits.deep_view() == edit_script(old_lines.deep_view(), new_lines.deep_view(), script@),
{
    let ghost old_all = old_lines.deep_view();
    let ghost new_all = new_lines.deep_view();
    let old_len = old_lines.len();
    let new_len = new_lines.len();
    let steps = script.len();
    let first = first_fitting(old_lines, new_lines, script);
    assert(first < steps ==> fits_at(old_all, new_all, script@, first as int));
    let (old_end, new_end) = ends_at(script, first, old_len, new_len);
    let mut edits: Vec<EditOperation> = Vec::new();
    push_coarse(&mut edits, old_lines, old_end, new_lines, new_end);
    assert(edits.deep_view() =~= edits_up_to(
        old_all,
        new_all,
        script@.take(first as int),
        old_end as int,
        new_end as int,
    )) by {
        if first > 0 {
            assert(script@.take(first as int).last() == script@[first - 1]);
        }
    }
    let mut at: usize = first;
    while at < steps
        invariant
            first <= at <= steps == script.len(),
            old_all == old_lines.deep_view(),
            new_all == new_lines.deep_view(),
            old_len == old_lines.len(),
            new_len == new_lines.len(),
            fits_from(old_all, new_all, script@, first as int),
            edits.deep_view() == edits_up_to(
                old_all,
                new_all,
                script@.take(at as int),
                old_end_at(script@, at as int, old_len as int),
                new_end_at(script@, at as int, new_len as int),
            ),
        decreases steps - at,
    {
        let step = &script[at];
        let ghost so_far = edits.deep_view();
        assert(fits_at(old_all, new_all, script@, at as int));
        assert(at + 1 < steps ==> fits_at(old_all, new_all, script@, at + 1));
        let (reach, _) = ends_at(script, at + 1, old_len, new_len);
        match step.op {
            Op::Delete => {
                let old = line_at(old_lines, step.line1 - 1);
                edits.push(EditOperation::Delete { old });
            },
            Op::Insert => {
                let new = line_at(new_lines, step.line2 - 1);
                edits.push(EditOperation::Insert { new });
            },
        }
        assert(edits.deep_view() =~= so_far.push(step_edit(*step, old_all, new_all)));
        push_equal_run(&mut edits, old_lines, new_lines, step.line1, step.line2, reach - step.line1);
        proof {
            let taken = script@.take(at + 1);
            assert(taken.last() == script@[at as int]);
            assert(taken.drop_last() =~= script@.take(at as int));
        }
        at += 1;
    }
    assert(script@.take(steps as int) =~= script@);
    edits
}

/// A run of equal lines holds those lines of the old file on its source
/// side and those of the new file on its target side.
pub proof fn lemma_equal_run_sides(
    old_lines: Seq<Seq<char>>,
    new_lines: Seq<Seq<char>>,
    old_from: int,
    new_from: int,
    count: int,
)
    requires
        0 <= old_from,
        0 <= new_from,
        0 <= count,
        old_from + count <= old_lines.len(),
        new_from + count <= new_lines.len(),
    ensures
        old_side(equal_run(old_lines, new_lines, old_from, new_from, count)) == numbered(
            old_lines,
        ).subrange(old_from, old_from + count),
        new_side(equal_run(old_lines, new_lines, old_from, new_from, count)) == numbered(
            new_lines,
        ).subrange(new_from, new_from + count),
    decreases count,
{
    let run = equal_run(old_lines, new_lines, old_from, new_from, count);
    if count == 0 {
        assert(old_side(run) =~= numbered(old_lines).subrange(old_from, old_from + count));
        assert(new_side(run) =~= numbered(new_lines).subrange(new_from, new_from + count));
    } else {
        let front = equal_run(old_lines, new_lines, old_from, new_from, count - 1);
        let op = run[count - 1];
        assert(run =~= front.push(op));
        lemma_equal_run_sides(old_lines, new_lines, old_from, new_from, count - 1);
        lemma_sides_push(front, op);
        assert(old_side(run) =~= numbered(old_lines).subrange(old_from, old_from + count));
        assert(new_side(run) =~= numbered(new_lines).subrange(new_from, new_from + count));
    }
}

/// A run of deletions holds those lines of the old file on its source side
/// and nothing on its target side.
pub proof fn lemma_delete_run_sides(old_lines: Seq<Seq<char>>, from: int, count: int)
    requires
        0 <= from,
        0 <= count,
        from + count <= old_lines.len(),
    ensures
        old_side(delete_run(old_lines, from, count)) == numbered(old_lines).subrange(
            from,
            from + count,
        ),
        new_side(delete_run(old_lines, from, count)) == Seq::<LineView>::empty(),
    decreases count,
{
    let run = delete_run(old_lines, from, count);
    if count == 0 {
        assert(old_side(run) =~= numbered(old_lines).subrange(from, from + count));
    } else {
        let front = delete_run(old_lines, from, count - 1);
        let op = run[count - 1];
        assert(run =~= front.push(op));
        lemma_delete_run_sides(old_lines, from, count - 1);
        lemma_sides_push(front, op);
        assert(old_side(run) =~= numbered(old_lines).subrange(from, from + count));
        assert(new_side(run) =~= Seq::<LineView>::empty());
    }
}

/// A run of insertions holds those lines of the new file on its target side
/// and nothing on its source side.
pub proof fn lemma_insert_run_sides(new_lines: Seq<Seq<char>>, from: int, count: int)
    requires
        0 <= from,
        0 <= count,
        from + count <= new_lines.len(),
    ensures
        old_side(insert_run(new_lines, from, count)) == Seq::<LineView>::empty(),
        new_side(insert_run(new_lines, from, count)) == numbered(new_lines).subrange(
            from,
            from + count,
        ),
    decreases count,
{
    let run = insert_run(new_lines, from, count);
    if count == 0 {
        assert(new_side(run) =~= numbered(new_lines).subrange(from, from + count));
    } else {
        let front = insert_run(new_lines, from, count - 1);
        let op = run[count - 1];
        assert(run =~= front.push(op));
        lemma_insert_run_sides(new_lines, from, count - 1);
        lemma_sides_push(front, op);
        assert(new_side(run) =~= numbered(new_lines).subrange(from, from + count));
        assert(old_side(run) =~= Seq::<LineView>::empty());
    }
}

/// The coarse script holds every old line on its source side and every new
/// line on its target side, each once and in order.
pub proof fn lemma_coarse_script_sides(old_lines: Seq<Seq<char>>, new_lines: Seq<Seq<char>>)
    ensures
        old_side(coarse_script(old_lines, new_lines)) == numbered(old_lines),
        new_side(coarse_script(old_lines, new_lines)) == numbered(new_lines),
{
    let shared_start = common_prefix(old_lines, new_lines) as int;
    lemma_common_prefix_bounds(old_lines, new_lines);
    let shared_end = common_suffix(old_lines.skip(shared_start), new_lines.skip(shared_start))
        as int;
    lemma_common_suffix_bounds(old_lines.skip(shared_start), new_lines.skip(shared_start));
    let old_only = old_lines.len() - shared_start - shared_end;
    let new_only = new_lines.len() - shared_start - shared_end;
    let start = equal_run(old_lines, new_lines, 0, 0, shared_start);
    let deleted = delete_run(old_lines, shared_start, old_only);
    let inserted = insert_run(new_lines, shared_start, new_only);
    let end = equal_run(
        old_lines,
        new_lines,
        old_lines.len() - shared_end,
        new_lines.len() - shared_end,
        shared_end,
    );
    lemma_equal_run_sides(old_lines, new_lines, 0, 0, shared_start);
    lemma_delete_run_sides(old_lines, shared_start, old_only);
    lemma_insert_run_sides(new_lines, shared_start, new_only);
    lemma_equal_run_sides(
        old_lines,
        new_lines,
        old_lines.len() - shared_end,
        new_lines.len() - shared_end,
        shared_end,
    );
    lemma_sides_concat(start, deleted);
    lemma_sides_concat(start + deleted, inserted);
    lemma_sides_concat(start + deleted + inserted, end);
    assert(old_side(coarse_script(old_lines, new_lines)) =~= numbered(old_lines));
    assert(new_side(coarse_script(old_lines, new_lines)) =~= numbered(new_lines));
}

/// Whatever the script holds, the edit operations for the first `old_end`
/// old lines and the first `new_end` new lines hold exactly those lines,
/// each once and in order.
pub proof fn lemma_edits_up_to_sides(
    old_lines: Seq<Seq<char>>,
    new_lines: Seq<Seq<char>>,
    script: Seq<Modification>,
    old_end: int,
    new_end: int,
)
    requires
        0 <= old_end <= old_lines.len(),
        0 <= new_end <= new_lines.len(),
    ensures
        old_side(edits_up_to(old_lines, new_lines, script, old_end, new_end)) == numbered(
            old_lines,
        ).take(old_end),
        new_side(edits_up_to(old_lines, new_lines, script, old_end, new_end)) == numbered(
            new_lines,
        ).take(new_end),
    decreases script.len(),
{
    let edits = edits_up_to(old_lines, new_lines, script, old_end, new_end);
    if script.len() > 0 && step_fits(old_lines, new_lines, script.last(), old_end, new_end) {
        let step = script.last();
        let head = edits_up_to(
            old_lines,
            new_lines,
            script.drop_last(),
            step.old_before(),
            step.new_before(),
        );
        let op = step_edit(step, old_lines, new_lines);
        let run = equal_run(
            old_lines,
            new_lines,
            step.line1 as int,
            step.line2 as int,
            old_end - step.line1,
        );
        lemma_edits_up_to_sides(
            old_lines,
            new_lines,
            script.drop_last(),
            step.old_before(),
            step.new_before(),
        );
        lemma_sides_push(head, op);
        lemma_equal_run_sides(
            old_lines,
            new_lines,
            step.line1 as int,
            step.line2 as int,
            old_end - step.line1,
        );
        lemma_sides_concat(head.push(op), run);
        assert(old_side(edits) =~= numbered(old_lines).take(old_end));
        assert(new_side(edits) =~= numbered(new_lines).take(new_end));
    } else {
        lemma_coarse_script_sides(old_lines.take(old_end), new_lines.take(new_end));
        assert(numbered(old_lines.take(old_end)) =~= numbered(old_lines).take(old_end));
        assert(numbered(new_lines.take(new_end)) =~= numbered(new_lines).take(new_end));
    }
}

/// Whatever the script holds, the edit operations made from it hold every
/// old line on their source side and every new line on their target side,
/// each once, in order and under its number.
pub proof fn lemma_edit_script_sides(
    old_lines: Seq<Seq<char>>,
    new_lines: Seq<Seq<char>>,
    script: Seq<Modification>,
)
    ensures
        old_side(edit_script(old_lines, new_lines, script)) == numbered(old_lines),
        new_side(edit_script(old_lines, new_lines, script)) == numbered(new_lines),
{
    lemma_edits_up_to_sides(
        old_lines,
        new_lines,
        script,
        old_lines.len() as int,
        new_lines.len() as int,
    );
    assert(numbered(old_lines).take(old_lines.len() as int) =~= numbered(old_lines));
    assert(numbered(new_lines).take(new_lines.len() as int) =~= numbered(new_lines));
}

/// The span of all the lines of a file: from line 1 over as many lines as
/// the file has, and the empty span for a file without lines.
pub open spec fn whole_span(lines: Seq<Seq<char>>) -> Span {
    if lines.len() == 0 {
        Span { start: 0, count: 0 }
    } else {
        Span { start: 1, count: lines.len() as int }
    }
}

/// The numbers of all the lines of a file span the whole file.
pub proof fn lemma_span_of_numbered(lines: Seq<Seq<char>>)
    ensures
        Span::of(line_numbers(numbered(lines))) == whole_span(lines),
{
    let numbers = line_numbers(numbered(lines));
    if lines.len() > 0 {
        assert(numbers[0] == 1);
        assert(numbers[lines.len() - 1] == lines.len());
        lemma_min_is(numbers, 1);
        lemma_max_is(numbers, lines.len() as int);
    }
}

/// Whether an operation that keeps a line holds the same text on both
/// sides. Deletions and insertions keep nothing.
pub open spec fn keeps_text(op: EditView) -> bool {
    match op {
        EditView::Equal { old, new } => old.text == new.text,
        _ => true,
    }
}

/// The coarse script calls only such lines equal as hold the same text.
pub proof fn lemma_coarse_script_keeps_text(
    old_lines: Seq<Seq<char>>,
    new_lines: Seq<Seq<char>>,
    index: int,
)
    requires
        0 <= index < coarse_script(old_lines, new_lines).len(),
    ensures
        keeps_text(coarse_script(old_lines, new_lines)[index]),
{
    let shared_start = common_prefix(old_lines, new_lines) as int;
    lemma_common_prefix_bounds(old_lines, new_lines);
    lemma_common_prefix_agrees(old_lines, new_lines);
    let old_rest = old_lines.skip(shared_start);
    let new_rest = new_lines.skip(shared_start);
    let shared_end = common_suffix(old_rest, new_rest) as int;
    lemma_common_suffix_bounds(old_rest, new_rest);
    lemma_common_suffix_agrees(old_rest, new_rest);
    let old_only = old_lines.len() - shared_start - shared_end;
    let new_only = new_lines.len() - shared_start - shared_end;
    if index >= shared_start + old_only + new_only {
        let t = index - shared_start - old_only - new_only;
        let at = old_rest.len() - shared_end + t;
        assert(old_rest[at] == new_rest[at + new_rest.len() - old_rest.len()]);
        assert(old_rest[at] == old_lines[old_lines.len() - shared_end + t]);
        assert(new_rest[at + new_rest.len() - old_rest.len()] == new_lines[new_lines.len()
            - shared_end + t]);
    }
}

/// Whatever the script holds, the edit operations made from it call only
/// such lines equal as hold the same text in both files.
pub proof fn lemma_edits_up_to_keep_text(
    old_lines: Seq<Seq<char>>,
    new_lines: Seq<Seq<char>>,
    script: Seq<Modification>,
    old_end: int,
    new_end: int,
    index: int,
)
    requires
        0 <= old_end <= old_lines.len(),
        0 <= new_end <= new_lines.len(),
        0 <= index < edits_up_to(old_lines, new_lines, script, old_end, new_end).len(),
    ensures
        keeps_text(edits_up_to(old_lines, new_lines, script, old_end, new_end)[index]),
    decreases script.len(),
{
    if script.len() > 0 && step_fits(old_lines, new_lines, script.last(), old_end, new_end) {
        let step = script.last();
        let head = edits_up_to(
            old_lines,
            new_lines,
            script.drop_last(),
            step.old_before(),
            step.new_before(),
        );
        if index < head.len() {
            lemma_edits_up_to_keep_text(
                old_lines,
                new_lines,
                script.drop_last(),
                step.old_before(),
                step.new_before(),
                index,
            );
        } else if index > head.len() {
            reveal(same_lines);
            let t = index - head.len() - 1;
            assert(old_lines[step.line1 + t] == new_lines[step.line1 + t - step.line1
                + step.line2]);
        }
    } else {
        lemma_coarse_script_keeps_text(old_lines.take(old_end), new_lines.take(new_end), index);
    }
}

/// Two files that hold the same lines get the script that keeps every line
/// in place.
pub proof fn lemma_coarse_script_of_same(lines: Seq<Seq<char>>)
    ensures
        coarse_script(lines, lines) == equal_run(lines, lines, 0, 0, lines.len() as int),
{
    lemma_common_prefix_is(lines, lines, lines.len() as int);
    let rest = lines.skip(lines.len() as int);
    lemma_common_suffix_bounds(rest, rest);
    assert(coarse_script(lines, lines) =~= equal_run(lines, lines, 0, 0, lines.len() as int));
}

/// Where the script fits from some entry on, fewer lines are accounted for
/// before that entry than at the end, and no more of either file than it
/// has.
pub proof fn lemma_fitting_start_is_before(
    old_lines: Seq<Seq<char>>,
    new_lines: Seq<Seq<char>>,
    script: Seq<Modification>,
    old_end: int,
    new_end: int,
)
    requires
        0 <= old_end,
        0 <= new_end,
        fitting_start(old_lines, new_lines, script, old_end, new_end) < script.len(),
    ensures
        ({
            let first = fitting_start(old_lines, new_lines, script, old_end, new_end);
            &&& 0 <= first
            &&& 0 <= script[first].old_before() <= old_end
            &&& 0 <= script[first].new_before() <= new_end
            &&& script[first].old_before() + script[first].new_before() < old_end + new_end
        }),
    decreases script.len(),
{
    let step = script.last();
    let front = script.drop_last();
    if fitting_start(old_lines, new_lines, front, step.old_before(), step.new_before())
        < front.len() {
        lemma_fitting_start_is_before(
            old_lines,
            new_lines,
            front,
            step.old_before(),
            step.new_before(),
        );
    } else {
        lemma_fitting_start_bounds(
            old_lines,
            new_lines,
            front,
            step.old_before(),
            step.new_before(),
        );
    }
}

/// The first entry that fits lies in the script or just behind it.
pub proof fn lemma_fitting_start_bounds(
    old_lines: Seq<Seq<char>>,
    new_lines: Seq<Seq<char>>,
    script: Seq<Modification>,
    old_end: int,
    new_end: int,
)
    ensures
        0 <= fitting_start(old_lines, new_lines, script, old_end, new_end) <= script.len(),
    decreases script.len(),
{
    if script.len() > 0 && step_fits(old_lines, new_lines, script.last(), old_end, new_end) {
        lemma_fitting_start_bounds(
            old_lines,
            new_lines,
            script.drop_last(),
            script.last().old_before(),
            script.last().new_before(),
        );
    }
}

} // verus!
