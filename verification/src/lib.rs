//! Unified diffs of text files.
//!
//! `diff_builder` renders an edit script as unified-diff text: the header
//! with both paths, one range line and one hunk that holds the whole script.
//! `differ` finds the edit script of two texts with the help of the line
//! comparison in `engine`, whose script `script` follows as far as it fits
//! the files. `text` says what the rendered text is, `laws` what holds of
//! every diff.

pub mod change_range;
pub mod decimal;
pub mod diff_builder;
pub mod differ;
pub mod edit;
pub mod engine;
pub mod file;
pub mod laws;
pub mod lines;
pub mod reading;
pub mod script;
pub mod shared;
pub mod std_specs;
pub mod text;
