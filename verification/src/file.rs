//! A named text file held in memory.

use vstd::prelude::*;

verus! {

/// A text file: where it came from and everything it holds, line terminators
/// included.
#[derive(Clone, Debug, PartialEq, Eq)]
pub struct File {
    pub path: String,
    pub content: String,
}

} // verus!
