//! The lines that two files share at their start and at their end.

use vstd::prelude::*;

verus! {

/// How many lines `a` and `b` share at their start.
pub open spec fn common_prefix(a: Seq<Seq<char>>, b: Seq<Seq<char>>) -> nat
    decreases a.len(),
{
    if a.len() > 0 && b.len() > 0 && a.first() == b.first() {
        1 + common_prefix(a.drop_first(), b.drop_first())
    } else {
        0
    }
}

/// How many lines `a` and `b` share at their end.
pub open spec fn common_suffix(a: Seq<Seq<char>>, b: Seq<Seq<char>>) -> nat
    decreases a.len(),
{
    if a.len() > 0 && b.len() > 0 && a.last() == b.last() {
        1 + common_suffix(a.drop_last(), b.drop_last())
    } else {
        0
    }
}

/// Two files share no more lines at their start than either has.
pub proof fn lemma_common_prefix_bounds(a: Seq<Seq<char>>, b: Seq<Seq<char>>)
    ensures
        common_prefix(a, b) <= a.len(),
        common_prefix(a, b) <= b.len(),
    decreases a.len(),
{
    if a.len() > 0 && b.len() > 0 && a.first() == b.first() {
        lemma_common_prefix_bounds(a.drop_first(), b.drop_first());
    }
}

/// Two files share no more lines at their end than either has.
pub proof fn lemma_common_suffix_bounds(a: Seq<Seq<char>>, b: Seq<Seq<char>>)
    ensures
        common_suffix(a, b) <= a.len(),
        common_suffix(a, b) <= b.len(),
    decreases a.len(),
{
    if a.len() > 0 && b.len() > 0 && a.last() == b.last() {
        lemma_common_suffix_bounds(a.drop_last(), b.drop_last());
    }
}

/// Lines put before both files are shared, and change nothing in what the
/// files share after them.
pub proof fn lemma_common_prefix_behind(
    before: Seq<Seq<char>>,
    a: Seq<Seq<char>>,
    b: Seq<Seq<char>>,
)
    ensures
        common_prefix(before + a, before + b) == before.len() + common_prefix(a, b),
    decreases before.len(),
{
    if before.len() == 0 {
        assert(before + a =~= a);
        assert(before + b =~= b);
    } else {
        let rest = before.drop_first();
        assert((before + a).first() == before.first());
        assert((before + b).first() == before.first());
        assert((before + a).drop_first() =~= rest + a);
        assert((before + b).drop_first() =~= rest + b);
        lemma_common_prefix_behind(rest, a, b);
    }
}

/// The lines that two files share at their start are the same lines.
pub proof fn lemma_common_prefix_agrees(a: Seq<Seq<char>>, b: Seq<Seq<char>>)
    ensures
        forall|t: int| 0 <= t < common_prefix(a, b) ==> #[trigger] a[t] == b[t],
    decreases a.len(),
{
    if a.len() > 0 && b.len() > 0 && a.first() == b.first() {
        let a1 = a.drop_first();
        let b1 = b.drop_first();
        lemma_common_prefix_agrees(a1, b1);
        lemma_common_prefix_bounds(a1, b1);
        assert forall|t: int| 0 <= t < common_prefix(a, b) implies #[trigger] a[t] == b[t] by {
            if t > 0 {
                assert(a1[t - 1] == b1[t - 1]);
            }
        }
    }
}

/// The lines that two files share at their end are the same lines.
pub proof fn lemma_common_suffix_agrees(a: Seq<Seq<char>>, b: Seq<Seq<char>>)
    ensures
        forall|t: int|
            a.len() - common_suffix(a, b) <= t < a.len() ==> #[trigger] a[t] == b[t + b.len()
                - a.len()],
    decreases a.len(),
{
    if a.len() > 0 && b.len() > 0 && a.last() == b.last() {
        let a1 = a.drop_last();
        let b1 = b.drop_last();
        lemma_common_suffix_agrees(a1, b1);
        lemma_common_suffix_bounds(a1, b1);
        assert forall|t: int| a.len() - common_suffix(a, b) <= t < a.len() implies #[trigger] a[t]
            == b[t + b.len() - a.len()] by {
            if t < a.len() - 1 {
                assert(a1[t] == b1[t + b1.len() - a1.len()]);
            }
        }
    }
}

/// The shared start is the longest run of equal lines from the first line on:
/// `count` is its length when the first `count` lines agree and the next
/// pair, if there is one, differs.
pub proof fn lemma_common_prefix_is(a: Seq<Seq<char>>, b: Seq<Seq<char>>, count: int)
    requires
        0 <= count <= a.len(),
        count <= b.len(),
        forall|t: int| 0 <= t < count ==> a[t] == b[t],
        count == a.len() || count == b.len() || a[count] != b[count],
    ensures
        common_prefix(a, b) == count,
    decreases a.len(),
{
    if count > 0 {
        assert(a[0] == b[0]);
        let a1 = a.drop_first();
        let b1 = b.drop_first();
        assert forall|t: int| 0 <= t < count - 1 implies a1[t] == b1[t] by {
            assert(a[t + 1] == b[t + 1]);
        }
        lemma_common_prefix_is(a1, b1, count - 1);
    }
}

/// The shared end is the longest run of equal lines up to the last line:
/// `count` is its length when the last `count` lines agree and the pair
/// before them, if there is one, differs.
pub proof fn lemma_common_suffix_is(a: Seq<Seq<char>>, b: Seq<Seq<char>>, count: int)
    requires
        0 <= count <= a.len(),
        count <= b.len(),
        forall|t: int|
            a.len() - count <= t < a.len() ==> #[trigger] a[t] == b[t + b.len() - a.len()],
        count == a.len() || count == b.len() || a[a.len() - 1 - count] != b[b.len() - 1 - count],
    ensures
        common_suffix(a, b) == count,
    decreases a.len(),
{
    if count > 0 {
        assert(a[a.len() - 1] == b[a.len() - 1 + b.len() - a.len()]);
        let a1 = a.drop_last();
        let b1 = b.drop_last();
        assert forall|t: int| a1.len() - (count - 1) <= t < a1.len() implies #[trigger] a1[t]
            == b1[t + b1.len() - a1.len()] by {
            assert(a[t] == b[t + b.len() - a.len()]);
        }
        lemma_common_suffix_is(a1, b1, count - 1);
    }
}

/// How many lines the first `a_end` lines of `a` and the first `b_end` lines
/// of `b` share at their start.
pub fn common_prefix_len(a: &Vec<String>, a_end: usize, b: &Vec<String>, b_end: usize) -> (count:
    usize)
    requires
        a_end <= a.len(),
        b_end <= b.len(),
    ensures
        count == common_prefix(a.deep_view().take(a_end as int), b.deep_view().take(b_end as int)),
        count <= a_end,
        count <= b_end,
{
    let ghost head_a = a.deep_view().take(a_end as int);
    let ghost head_b = b.deep_view().take(b_end as int);
    let mut count: usize = 0;
    while count < a_end && count < b_end && a[count] == b[count]
        invariant
            count <= a_end <= a.len(),
            count <= b_end <= b.len(),
            head_a == a.deep_view().take(a_end as int),
            head_b == b.deep_view().take(b_end as int),
            forall|t: int| 0 <= t < count ==> head_a[t] == head_b[t],
        decreases a_end - count,
    {
        count += 1;
    }
    proof {
        lemma_common_prefix_is(head_a, head_b, count as int);
    }
    count
}

/// How many lines the lines `start..a_end` of `a` and the lines
/// `start..b_end` of `b` share at their end.
pub fn common_suffix_len(
    a: &Vec<String>,
    a_end: usize,
    b: &Vec<String>,
    b_end: usize,
    start: usize,
) -> (count: usize)
    requires
        start <= a_end <= a.len(),
        start <= b_end <= b.len(),
    ensures
        count == common_suffix(
            a.deep_view().subrange(start as int, a_end as int),
            b.deep_view().subrange(start as int, b_end as int),
        ),
        count <= a_end - start,
        count <= b_end - start,
{
    let ghost mid_a = a.deep_view().subrange(start as int, a_end as int);
    let ghost mid_b = b.deep_view().subrange(start as int, b_end as int);
    let mut count: usize = 0;
    while count < a_end - start && count < b_end - start && a[a_end - 1 - count] == b[b_end - 1
        - count]
        invariant
            start <= a_end <= a.len(),
            start <= b_end <= b.len(),
            count <= a_end - start,
            count <= b_end - start,
            mid_a == a.deep_view().subrange(start as int, a_end as int),
            mid_b == b.deep_view().subrange(start as int, b_end as int),
            forall|t: int|
                mid_a.len() - count <= t < mid_a.len() ==> #[trigger] mid_a[t] == mid_b[t
                    + mid_b.len() - mid_a.len()],
        decreases a_end - start - count,
    {
        count += 1;
    }
    proof {
        lemma_common_suffix_is(mid_a, mid_b, count as int);
    }
    count
}

} // verus!
