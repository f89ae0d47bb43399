//! Results that the index hands back.

use vstd::prelude::*;

verus! {

/// Counts of what the index holds.
#[derive(Debug)]
pub struct IndexStats {
    pub object_count: usize,
    pub trait_count: usize,
    pub ref_count: usize,
    pub file_count: usize,
}

/// A task that a query found.
#[derive(Debug)]
pub struct TaskResult {
    pub id: String,
    pub content: String,
    /// The fields of the task, as JSON text.
    pub fields: String,
    pub line: i64,
    pub file_path: String,
    pub parent_id: String,
}

/// A reference to a target that a query found.
#[derive(Debug)]
pub struct BacklinkResult {
    pub source_id: String,
    pub file_path: String,
    pub line: Option<i64>,
    pub display_text: Option<String>,
}

} // verus!
