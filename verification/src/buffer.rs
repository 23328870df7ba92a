//! The buffer registry: maps buffer identifiers to piece tables and
//! per-buffer cursor and metadata state.

pub use crate::types::buffer::ID;

pub mod editor;
pub mod meta;
