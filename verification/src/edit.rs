//! Lines and the edit operations that turn one file into another.

use vstd::prelude::*;

verus! {

/// One line of a file: its 1-based number and its text without the terminator.
#[derive(Clone, Debug, PartialEq, Eq)]
pub struct Line {
    pub number: u64,
    pub text: String,
}

/// What a `Line` stands for in contracts.
pub struct LineView {
    pub number: int,
    pub text: Seq<char>,
}

impl View for Line {
    type V = LineView;

    open spec fn view(&self) -> LineView {
        LineView { number: self.number as int, text: self.text@ }
    }
}

impl DeepView for Line {
    type V = LineView;

    open spec fn deep_view(&self) -> LineView {
        self@
    }
}

/// One step of an edit script.
#[derive(Clone, Debug, PartialEq, Eq)]
pub enum EditOperation {
    /// A line that only the source has.
    Delete { old: Line },
    /// A line that only the target has.
    Insert { new: Line },
    /// A line that both files have.
    Equal { old: Line, new: Line },
}

/// What an `EditOperation` stands for in contracts.
pub enum EditView {
    Delete { old: LineView },
    Insert { new: LineView },
    Equal { old: LineView, new: LineView },
}

impl View for EditOperation {
    type V = EditView;

    open spec fn view(&self) -> EditView {
        match *self {
            EditOperation::Delete { old } => EditView::Delete { old: old@ },
            EditOperation::Insert { new } => EditView::Insert { new: new@ },
            EditOperation::Equal { old, new } => EditView::Equal { old: old@, new: new@ },
        }
    }
}

impl DeepView for EditOperation {
    type V = EditView;

    open spec fn deep_view(&self) -> EditView {
        self@
    }
}

impl EditView {
    /// The source line that this operation holds, if any.
    pub open spec fn old_line(self) -> Option<LineView> {
        match self {
            EditView::Delete { old } => Some(old),
            EditView::Insert { new } => None,
            EditView::Equal { old, new } => Some(old),
        }
    }

    /// The target line that this operation holds, if any.
    pub open spec fn new_line(self) -> Option<LineView> {
        match self {
            EditView::Delete { old } => None,
            EditView::Insert { new } => Some(new),
            EditView::Equal { old, new } => Some(new),
        }
    }
}

/// What is left of a line that may be missing: the line, or nothing.
pub open spec fn present(line: Option<LineView>) -> Seq<LineView> {
    match line {
        Some(line) => seq![line],
        None => Seq::empty(),
    }
}

/// The source side of a script: the lines of its deletions and equalities,
/// in order.
pub open spec fn old_side(edits: Seq<EditView>) -> Seq<LineView>
    decreases edits.len(),
{
    if edits.len() == 0 {
        Seq::empty()
    } else {
        old_side(edits.drop_last()) + present(edits.last().old_line())
    }
}

/// The target side of a script: the lines of its insertions and equalities,
/// in order.
pub open spec fn new_side(edits: Seq<EditView>) -> Seq<LineView>
    decreases edits.len(),
{
    if edits.len() == 0 {
        Seq::empty()
    } else {
        new_side(edits.drop_last()) + present(edits.last().new_line())
    }
}

/// The numbers of some lines, in order.
pub open spec fn line_numbers(lines: Seq<LineView>) -> Seq<int> {
    lines.map_values(|line: LineView| line.number)
}

/// The texts of some lines, in order.
pub open spec fn texts_of(lines: Seq<LineView>) -> Seq<Seq<char>> {
    lines.map_values(|line: LineView| line.text)
}

/// Both sides of a script grow by what the operation holds that the script
/// grows by.
pub proof fn lemma_sides_push(edits: Seq<EditView>, op: EditView)
    ensures
        old_side(edits.push(op)) == old_side(edits) + present(op.old_line()),
        new_side(edits.push(op)) == new_side(edits) + present(op.new_line()),
{
    assert(edits.push(op).drop_last() =~= edits);
}

/// The sides of two scripts, one after the other, are their sides one after
/// the other.
pub proof fn lemma_sides_concat(first: Seq<EditView>, second: Seq<EditView>)
    ensures
        old_side(first + second) == old_side(first) + old_side(second),
        new_side(first + second) == new_side(first) + new_side(second),
    decreases second.len(),
{
    if second.len() == 0 {
        assert(first + second =~= first);
        assert(old_side(first) + old_side(second) =~= old_side(first));
        assert(new_side(first) + new_side(second) =~= new_side(first));
    } else {
        let front = second.drop_last();
        let op = second.last();
        assert(first + second =~= (first + front).push(op));
        assert(second =~= front.push(op));
        lemma_sides_concat(first, front);
        lemma_sides_push(first + front, op);
        lemma_sides_push(front, op);
        assert(old_side(first) + (old_side(front) + present(op.old_line())) =~= old_side(first)
            + old_side(front) + present(op.old_line()));
        assert(new_side(first) + (new_side(front) + present(op.new_line())) =~= new_side(first)
            + new_side(front) + present(op.new_line()));
    }
}

/// Each side of a script holds the line of every operation that has one on
/// that side.
pub proof fn lemma_sides_hold_lines(edits: Seq<EditView>, index: int)
    requires
        0 <= index < edits.len(),
    ensures
        edits[index].old_line() matches Some(line) ==> old_side(edits).contains(line),
        edits[index].new_line() matches Some(line) ==> new_side(edits).contains(line),
    decreases edits.len(),
{
    let front = edits.drop_last();
    let last = edits.last();
    if index < edits.len() - 1 {
        lemma_sides_hold_lines(front, index);
        if let Some(line) = edits[index].old_line() {
            let at = choose|k: int| 0 <= k < old_side(front).len() && old_side(front)[k] == line;
            assert(old_side(edits)[at] == line);
        }
        if let Some(line) = edits[index].new_line() {
            let at = choose|k: int| 0 <= k < new_side(front).len() && new_side(front)[k] == line;
            assert(new_side(edits)[at] == line);
        }
    } else {
        if let Some(line) = last.old_line() {
            assert(old_side(edits)[old_side(front).len() as int] == line);
        }
        if let Some(line) = last.new_line() {
            assert(new_side(edits)[new_side(front).len() as int] == line);
        }
    }
}

} // verus!
