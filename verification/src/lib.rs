//! Forensic decoder for a relational database engine's 8192-byte table-data
//! blocks: a chunk scanner that finds candidate blocks, a structural block
//! parser that walks headers and row directories, and a type guesser that
//! renders raw column bytes as dates, timestamps, text or fixed-point numbers.

pub mod block;
pub mod calendar;
pub mod decoder;
pub mod numfmt;
pub mod wrappers;

use vstd::prelude::*;

verus! {

/// Fixed size of one storage block.
pub const BLOCK_SIZE: usize = 8192;

} // verus!
