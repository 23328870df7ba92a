//! Metadata kept per buffer.

use vstd::prelude::*;

verus! {

/// Metadata associated with a buffer: file path, language, modification
/// status, and creation time.
#[derive(Debug, Clone)]
pub struct Data {
    /// Optional file path associated with the buffer.
    pub file_path: Option<String>,
    /// Optional programming language of the buffer.
    pub language: Option<String>,
    /// Indicates whether the buffer has been modified.
    pub modified: bool,
    /// When the buffer was created, in milliseconds since the Unix epoch.
    pub created_at: u64,
}

} // verus!
