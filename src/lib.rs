//! Reading a version-control history: parsing the one-line-per-commit log
//! format into entries, and assembling a diff report for chosen entries.
use vstd::prelude::*;

pub mod entry;
pub mod git;
pub mod log;
pub mod text;

verus! {

} // verus!
