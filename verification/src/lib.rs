use vstd::prelude::*;

pub mod commands;
pub mod convert;
pub mod encode;
pub mod error;
pub mod filter;
pub mod locs;
pub mod sample;
pub mod seqs;
pub mod symbols;
pub mod text;
pub mod tools;

verus! {

/// Hard cap on the number of sequences used for analysis; records past this
/// count are ignored (with a warning at the boundary), never an error.
pub const SEQ_MAX: usize = 1000;

} // verus!
