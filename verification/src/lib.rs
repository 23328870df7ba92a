//! A verified text-editor core built around a piece table.
//!
//! The document is represented as an ordered list of pieces, each a slice of
//! one of two backing buffers: the immutable `original` text and an
//! append-only `add` buffer for inserted text.  Every public operation
//! carries a contract relating it to the mathematical view of the document,
//! a sequence of characters.

use vstd::prelude::*;

pub mod buffer;
pub mod commands;
pub mod context;
pub mod cursor;
pub mod event;
pub mod key;
pub mod layout;
pub mod piece_table;
pub mod point;
pub mod rect;
pub mod size;
pub mod types;
pub mod util;
pub mod window;

pub use piece_table::piece;

verus! {

/// Adds two numbers.
pub fn add(left: u64, right: u64) -> (r: u64)
    requires
        left + right <= u64::MAX,
    ensures
        r == left + right,
{
    left + right
}

} // verus!
