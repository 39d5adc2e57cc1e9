//! The line-comparison engine: the `myers` crate's `compare`, how it is
//! called and in what form its script is handed on.

use vstd::prelude::*;
use crate::shared::{common_prefix, common_prefix_len, lemma_common_prefix_behind};

verus! {

/// What a modification does to the old file.
#[derive(Clone, Copy, Debug, PartialEq, Eq)]
pub enum Op {
    /// A line of the new file is inserted.
    Insert,
    /// A line of the old file is deleted.
    Delete,
}

/// One entry of the engine's edit script. After the modification, `line1`
/// lines of the old file and `line2` lines of the new file are accounted for:
/// a deletion removes line `line1` of the old file, an insertion adds line
/// `line2` of the new file.
#[derive(Clone, Copy, Debug)]
pub struct Modification {
    pub op: Op,
    pub line1: usize,
    pub line2: usize,
}

impl Modification {
    /// How many lines of the old file are accounted for before this
    /// modification.
    pub open spec fn old_before(self) -> int {
        match self.op {
            Op::Delete => self.line1 - 1,
            Op::Insert => self.line1 as int,
        }
    }

    /// How many lines of the new file are accounted for before this
    /// modification.
    pub open spec fn new_before(self) -> int {
        match self.op {
            Op::Delete => self.line2 as int,
            Op::Insert => self.line2 - 1,
        }
    }
}

/// The script that `myers::compare` returns for two files, given as their
/// lines.
pub uninterp spec fn engine_script(
    old_lines: Seq<Seq<char>>,
    new_lines: Seq<Seq<char>>,
) -> Seq<Modification>;

/// Whether `myers::compare` can be called on two files: both have a line,
/// and the lines they share at their start make up at least half of the
/// shorter one.
///
/// `compare` searches in rounds, one for each line by which the files
/// differ. In each round it subtracts the round's number from the line count
/// of the longer file, which must not go below zero; and with a new file that
/// has no line it steps below its lowest diagonal. Files within reach differ
/// by no more lines than the longer one holds: at most by the lines after
/// the shared start of each, and in the shorter file those are no more than
/// the shared start.
pub open spec fn within_reach(old_lines: Seq<Seq<char>>, new_lines: Seq<Seq<char>>) -> bool {
    &&& old_lines.len() > 0
    &&& new_lines.len() > 0
    &&& old_lines.len() <= 2 * common_prefix(old_lines, new_lines) || new_lines.len() <= 2
        * common_prefix(old_lines, new_lines)
}

/// The most lines that two files may hold after the lines they share at
/// their start, for the engine to be called on them.
///
/// `compare` keeps each entry of its script in a box that holds the entry
/// before it, and such a chain is dropped by recursion, one step for each
/// entry. A chain grows by one entry in each round of the search, so it is
/// no longer than the files differ by lines, which is at most the lines
/// after their shared start. A step takes no more than 128 bytes of stack in
/// an unoptimised build, so a chain within the limit takes no more than
/// 512 KiB: a quarter of the stack that a thread has by default.
pub const ENGINE_SCRIPT_LIMIT: usize = 4096;

/// How many lines two files hold after the lines they share at their start.
pub open spec fn lines_after_shared_start(
    old_lines: Seq<Seq<char>>,
    new_lines: Seq<Seq<char>>,
) -> int {
    old_lines.len() + new_lines.len() - 2 * common_prefix(old_lines, new_lines)
}

/// Whether the engine's script for two files stays within the limit: the
/// files hold no more lines after their shared start than it allows.
pub open spec fn within_limit(old_lines: Seq<Seq<char>>, new_lines: Seq<Seq<char>>) -> bool {
    lines_after_shared_start(old_lines, new_lines) <= ENGINE_SCRIPT_LIMIT
}

/// `count` empty lines.
pub open spec fn padding(count: nat) -> Seq<Seq<char>> {
    Seq::new(count, |t: int| Seq::<char>::empty())
}

/// A script for two files that begin with `count` lines of padding, told in
/// the line numbers of the files without it. An entry that lies in the
/// padding gets line 0.
pub open spec fn unpadded(script: Seq<Modification>, count: nat) -> Seq<Modification> {
    script.map_values(
        |step: Modification|
            Modification {
                op: step.op,
                line1: if step.line1 >= count {
                    (step.line1 - count) as usize
                } else {
                    0
                },
                line2: if step.line2 >= count {
                    (step.line2 - count) as usize
                } else {
                    0
                },
            },
    )
}

/// How many lines of padding both files get before the engine sees them: as
/// many as the shorter file has lines, which brings any two files within
/// reach.
pub open spec fn padding_for(old_lines: Seq<Seq<char>>, new_lines: Seq<Seq<char>>) -> nat {
    if old_lines.len() <= new_lines.len() {
        old_lines.len()
    } else {
        new_lines.len()
    }
}

/// The script that the engine is consulted for: none where a file has no
/// line, where both hold the same lines, or where they hold more lines after
/// their shared start than the limit allows; otherwise the engine's script
/// for both files behind as many empty lines as the shorter one has, told in
/// the line numbers of the files themselves.
pub open spec fn consulted_script(
    old_lines: Seq<Seq<char>>,
    new_lines: Seq<Seq<char>>,
) -> Seq<Modification> {
    if old_lines.len() == 0 || new_lines.len() == 0 || old_lines == new_lines || !within_limit(
        old_lines,
        new_lines,
    ) {
        Seq::empty()
    } else {
        let count = padding_for(old_lines, new_lines);
        unpadded(engine_script(padding(count) + old_lines, padding(count) + new_lines), count)
    }
}

/// Calls `myers::compare` on the two files' lines and hands its script on,
/// entry by entry.
///
/// Trusted: that `compare` returns on files that are within reach and within
/// the limit, that its script depends on nothing but what the lines hold,
/// and that it is empty for two files that hold the same lines (`compare`
/// then finds both files used up after their shared start and searches no
/// further). Within reach its arithmetic stays at or above zero; within the
/// limit the chains of its script are short enough to be dropped on a
/// thread's default stack. Nothing else is claimed of the script; the
/// library checks each entry before it goes by it.
#[verifier::external_body]
fn compare_lines(old_lines: &Vec<String>, new_lines: &Vec<String>) -> (script: Vec<Modification>)
    requires
        within_reach(old_lines.deep_view(), new_lines.deep_view()),
        within_limit(old_lines.deep_view(), new_lines.deep_view()),
    ensures
        script@ == engine_script(old_lines.deep_view(), new_lines.deep_view()),
        old_lines.deep_view() == new_lines.deep_view() ==> script@.len() == 0,
{
    let mut script = Vec::new();
    for found in myers::compare(old_lines, new_lines) {
        let op = match found.op {
            myers::Op::Insert => Op::Insert,
            myers::Op::Delete => Op::Delete,
        };
        script.push(Modification { op, line1: found.line1, line2: found.line2 });
    }
    script
}

/// The lines of a file behind `count` empty lines.
fn padded_lines(lines: &Vec<String>, count: usize) -> (padded: Vec<String>)
    ensures
        padded.deep_view() == padding(count as nat) + lines.deep_view(),
{
    let mut padded: Vec<String> = Vec::new();
    let mut t: usize = 0;
    while t < count
        invariant
            t <= count,
            padded.deep_view() =~= padding(t as nat),
        decreases count - t,
    {
        let ghost so_far = padded.deep_view();
        padded.push(String::new());
        assert(padded.deep_view() =~= so_far.push(Seq::<char>::empty()));
        t += 1;
    }
    let mut t: usize = 0;
    while t < lines.len()
        invariant
            t <= lines.len(),
            padded.deep_view() =~= padding(count as nat) + lines.deep_view().take(t as int),
        decreases lines.len() - t,
    {
        let ghost so_far = padded.deep_view();
        padded.push(lines[t].clone());
        assert(padded.deep_view() =~= so_far.push(lines.deep_view()[t as int]));
        t += 1;
    }
    assert(lines.deep_view().take(lines.len() as int) =~= lines.deep_view());
    padded
}

/// A script told in the line numbers of the files without their padding.
fn unpadded_script(script: &Vec<Modification>, count: usize) -> (shifted: Vec<Modification>)
    ensures
        shifted@ == unpadded(script@, count as nat),
{
    let mut shifted: Vec<Modification> = Vec::new();
    let mut t: usize = 0;
    while t < script.len()
        invariant
            t <= script.len(),
            shifted@ =~= unpadded(script@, count as nat).take(t as int),
        decreases script.len() - t,
    {
        let step = &script[t];
        let line1 = if step.line1 >= count {
            step.line1 - count
        } else {
            0
        };
        let line2 = if step.line2 >= count {
            step.line2 - count
        } else {
            0
        };
        shifted.push(Modification { op: step.op, line1, line2 });
        t += 1;
    }
    assert(unpadded(script@, count as nat).take(script.len() as int) =~= unpadded(
        script@,
        count as nat,
    ));
    shifted
}

/// Whether two files hold no more lines after their shared start than the
/// limit allows.
pub fn is_within_limit(old_lines: &Vec<String>, new_lines: &Vec<String>) -> (within: bool)
    ensures
        within == within_limit(old_lines.deep_view(), new_lines.deep_view()),
{
    let old_len = old_lines.len();
    let new_len = new_lines.len();
    let shared_start = common_prefix_len(old_lines, old_len, new_lines, new_len);
    proof {
        assert(old_lines.deep_view().take(old_len as int) =~= old_lines.deep_view());
        assert(new_lines.deep_view().take(new_len as int) =~= new_lines.deep_view());
    }
    let old_after = old_len - shared_start;
    let new_after = new_len - shared_start;
    old_after <= ENGINE_SCRIPT_LIMIT && new_after <= ENGINE_SCRIPT_LIMIT - old_after
}

/// Consults the engine for two files: calls it where both have a line and
/// are within the limit, behind as many empty lines as the shorter one has.
pub fn consult(old_lines: &Vec<String>, new_lines: &Vec<String>) -> (script: Vec<Modification>)
    ensures
        script@ == consulted_script(old_lines.deep_view(), new_lines.deep_view()),
{
    let old_len = old_lines.len();
    let new_len = new_lines.len();
    if old_len == 0 || new_len == 0 || !is_within_limit(old_lines, new_lines) {
        return Vec::new();
    }
    let count = if old_len <= new_len {
        old_len
    } else {
        new_len
    };
    let padded_old = padded_lines(old_lines, count);
    let padded_new = padded_lines(new_lines, count);
    proof {
        let a = padded_old.deep_view();
        let b = padded_new.deep_view();
        assert(a.len() == count + old_len);
        assert(b.len() == count + new_len);
        lemma_common_prefix_behind(
            padding(count as nat),
            old_lines.deep_view(),
            new_lines.deep_view(),
        );
    }
    let found = compare_lines(&padded_old, &padded_new);
    let script = unpadded_script(&found, count);
    proof {
        if old_lines.deep_view() == new_lines.deep_view() {
            assert(script@ =~= Seq::<Modification>::empty());
        }
    }
    script
}

} // verus!
