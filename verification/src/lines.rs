//! The lines of a text.

use vstd::prelude::*;
use vstd::string::StrSliceExecFns;

verus! {

/// The pieces of `content` that `'\n'` separates. A text without `'\n'` is
/// one piece; a text that ends with `'\n'` has an empty last piece.
pub open spec fn split(content: Seq<char>) -> Seq<Seq<char>>
    decreases content.len(),
{
    if content.len() == 0 {
        seq![Seq::empty()]
    } else if content.last() == '\n' {
        split(content.drop_last()).push(Seq::empty())
    } else {
        let before = split(content.drop_last());
        before.drop_last().push(before.last().push(content.last()))
    }
}

/// The lines of a file: none for an empty file, otherwise what `'\n'`
/// separates.
pub open spec fn lines_of(content: Seq<char>) -> Seq<Seq<char>> {
    if content.len() == 0 {
        Seq::empty()
    } else {
        split(content)
    }
}

/// Whether a text ends with a line terminator.
pub open spec fn is_terminated(content: Seq<char>) -> bool {
    content.len() > 0 && content.last() == '\n'
}

/// Splits a file's content into its lines.
pub fn split_lines(content: &str) -> (lines: Vec<String>)
    ensures
        lines.deep_view() == lines_of(content@),
{
    let mut lines: Vec<String> = Vec::new();
    let mut current = String::new();
    let mut seen: bool = false;
    for c in it: content.chars()
        invariant
            it.seq() == content@,
            seen == (it.index() > 0),
            lines.deep_view().push(current@) =~= split(content@.take(it.index() as int)),
    {
        assert(content@.take(it.index() + 1).drop_last() =~= content@.take(it.index() as int));
        seen = true;
        if c == '\n' {
            lines.push(current);
            current = String::new();
        } else {
            current.push(c);
        }
    }
    assert(content@.take(content@.len() as int) =~= content@);
    if seen {
        lines.push(current);
    }
    lines
}

/// Whether a file's content ends with a line terminator.
pub fn ends_with_newline(content: &str) -> (terminated: bool)
    ensures
        terminated == is_terminated(content@),
{
    let length = content.unicode_len();
    length > 0 && content.get_char(length - 1) == '\n'
}

/// The text whose lines are `lines`: the lines with `'\n'` between them.
pub open spec fn joined(lines: Seq<Seq<char>>) -> Seq<char>
    decreases lines.len(),
{
    if lines.len() == 0 {
        Seq::empty()
    } else if lines.len() == 1 {
        lines[0]
    } else {
        joined(lines.drop_last()).push('\n') + lines.last()
    }
}

/// Splitting loses nothing: the pieces of a text, joined, are the text, and
/// there is at least one piece.
pub proof fn lemma_joined_split(content: Seq<char>)
    ensures
        split(content).len() >= 1,
        joined(split(content)) == content,
    decreases content.len(),
{
    if content.len() == 0 {
    } else {
        let front = content.drop_last();
        let before = split(front);
        lemma_joined_split(front);
        assert(content =~= front.push(content.last()));
        if content.last() == '\n' {
            let pieces = before.push(Seq::empty());
            assert(pieces.drop_last() =~= before);
            assert(joined(pieces) =~= joined(before).push('\n'));
        } else {
            let pieces = before.drop_last().push(before.last().push(content.last()));
            if before.len() == 1 {
                assert(joined(pieces) =~= before[0].push(content.last()));
            } else {
                assert(pieces.drop_last() =~= before.drop_last());
                assert(joined(pieces) =~= (joined(before.drop_last()).push('\n') + before.last()).push(
                    content.last(),
                ));
            }
        }
    }
}

/// A file is its lines with `'\n'` between them.
pub proof fn lemma_joined_lines(content: Seq<char>)
    ensures
        joined(lines_of(content)) == content,
{
    lemma_joined_split(content);
}

/// No line holds a line terminator.
pub proof fn lemma_lines_hold_no_newline(content: Seq<char>, index: int)
    requires
        0 <= index < lines_of(content).len(),
    ensures
        !lines_of(content)[index].contains('\n'),
{
    lemma_split_holds_no_newline(content, index);
}

proof fn lemma_split_holds_no_newline(content: Seq<char>, index: int)
    requires
        0 <= index < split(content).len(),
    ensures
        !split(content)[index].contains('\n'),
    decreases content.len(),
{
    let line = split(content)[index];
    if content.len() == 0 {
        assert(line =~= Seq::<char>::empty());
    } else {
        let before = split(content.drop_last());
        lemma_joined_split(content.drop_last());
        if content.last() == '\n' {
            if index < before.len() {
                lemma_split_holds_no_newline(content.drop_last(), index);
            } else {
                assert(line =~= Seq::<char>::empty());
            }
        } else {
            if index < before.len() - 1 {
                lemma_split_holds_no_newline(content.drop_last(), index);
            } else {
                lemma_split_holds_no_newline(content.drop_last(), before.len() - 1);
                assert(line == before.last().push(content.last()));
                assert forall|k: int| 0 <= k < line.len() implies line[k] != '\n' by {
                    if k < before.last().len() {
                        assert(before.last().contains(before.last()[k]));
                    }
                }
            }
        }
    }
}

/// The last piece of a text that is empty or ends with a line terminator
/// is empty.
pub proof fn lemma_split_of_terminated(content: Seq<char>)
    requires
        content.len() == 0 || content.last() == '\n',
    ensures
        split(content).len() >= 1,
        split(content).last() == Seq::<char>::empty(),
{
    if content.len() > 0 {
        lemma_joined_split(content.drop_last());
    }
}

/// Characters other than the line terminator, added to a text, are added to
/// its last piece.
pub proof fn lemma_split_add_plain(content: Seq<char>, more: Seq<char>)
    requires
        !more.contains('\n'),
    ensures
        split(content + more) == split(content).drop_last().push(split(content).last() + more),
    decreases more.len(),
{
    lemma_joined_split(content);
    let pieces = split(content);
    if more.len() == 0 {
        assert(content + more =~= content);
        assert(pieces.last() + more =~= pieces.last());
        assert(pieces.drop_last().push(pieces.last()) =~= pieces);
    } else {
        let front = more.drop_last();
        let c = more.last();
        assert(more.contains(c));
        assert forall|k: int| 0 <= k < front.len() implies front[k] != '\n' by {
            assert(more.contains(more[k]));
        }
        lemma_split_add_plain(content, front);
        let all = content + more;
        assert(all.drop_last() =~= content + front);
        assert(all.last() == c);
        let before = split(content + front);
        assert(before.drop_last() =~= pieces.drop_last());
        assert(before.last().push(c) =~= pieces.last() + more);
    }
}

/// A whole line, added to a text that is empty or ends with a line
/// terminator, becomes its last piece but one; the last piece is empty
/// again.
pub proof fn lemma_split_add_line(content: Seq<char>, line: Seq<char>)
    requires
        content.len() == 0 || content.last() == '\n',
        !line.contains('\n'),
    ensures
        split(content + line.push('\n')) == split(content).drop_last().push(line).push(
            Seq::empty(),
        ),
{
    lemma_split_of_terminated(content);
    lemma_split_add_plain(content, line);
    let all = content + line.push('\n');
    assert(all.drop_last() =~= content + line);
    assert(all.last() == '\n');
    assert(Seq::<char>::empty() + line =~= line);
}

} // verus!
