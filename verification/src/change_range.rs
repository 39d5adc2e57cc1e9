//! The span of line numbers that an edit script touches on one side.

use vstd::prelude::*;

verus! {

/// A run of `count` line numbers that begins at `start`.
///
/// A range that touches no line is `{ start: 0, count: 0 }`.
#[derive(Clone, Copy, Debug, PartialEq, Eq)]
pub struct ChangeRange {
    pub start: u64,
    pub count: u64,
}

/// What a `ChangeRange` stands for in contracts: the same two numbers,
/// unbounded.
pub struct Span {
    pub start: int,
    pub count: int,
}

impl Span {
    /// The last line number of the span. It means something only for a span
    /// that holds a line.
    pub open spec fn end(self) -> int {
        self.start + self.count - 1
    }

    /// Whether the span holds a line and `number` is its last.
    pub open spec fn ends_at(self, number: int) -> bool {
        self.count > 0 && number == self.end()
    }

    /// The span from the least to the greatest of `numbers`, gaps included;
    /// the empty span where there is no number.
    pub open spec fn of(numbers: Seq<int>) -> Span {
        if numbers.len() == 0 {
            Span { start: 0, count: 0 }
        } else {
            Span { start: numbers.min(), count: numbers.max() - numbers.min() + 1 }
        }
    }
}

impl View for ChangeRange {
    type V = Span;

    open spec fn view(&self) -> Span {
        Span { start: self.start as int, count: self.count as int }
    }
}

/// Line numbers as unbounded integers.
pub open spec fn numbers_of(line_numbers: Seq<u64>) -> Seq<int> {
    line_numbers.map_values(|n: u64| n as int)
}

impl ChangeRange {
    /// The first line number of the range.
    pub fn start(&self) -> (start: u64)
        ensures
            start == self@.start,
    {
        self.start
    }

    /// The last line number of a range that holds a line.
    pub fn end(&self) -> (end: u64)
        requires
            self.count > 0,
            self@.end() <= u64::MAX,
        ensures
            end == self@.end(),
    {
        self.start + (self.count - 1)
    }

    /// How many line numbers the range holds.
    pub fn count(&self) -> (count: u64)
        ensures
            count == self@.count,
    {
        self.count
    }

    /// Whether `number` is the last line of this range. A range without a
    /// line, or one whose end no `u64` can hold, ends at no number.
    pub fn ends_at(&self, number: u64) -> (at_end: bool)
        ensures
            at_end == self@.ends_at(number as int),
    {
        self.count > 0 && self.start <= u64::MAX - (self.count - 1) && number == self.end()
    }
}

/// A member of `numbers` that none of them is below is their minimum.
pub proof fn lemma_min_is(numbers: Seq<int>, least: int)
    requires
        numbers.contains(least),
        forall|i: int| 0 <= i < numbers.len() ==> least <= numbers[i],
    ensures
        numbers.min() == least,
{
    numbers.min_ensures();
}

/// A member of `numbers` that none of them is above is their maximum.
pub proof fn lemma_max_is(numbers: Seq<int>, greatest: int)
    requires
        numbers.contains(greatest),
        forall|i: int| 0 <= i < numbers.len() ==> numbers[i] <= greatest,
    ensures
        numbers.max() == greatest,
{
    numbers.max_ensures();
}

} // verus!
