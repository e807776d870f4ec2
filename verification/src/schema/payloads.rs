//! Variable-length snapshot payload stored beside each snapshot record.

use vstd::prelude::*;

verus! {

pub const SNAPSHOT_PARENT_EXTENSION_VERSION: u8 = 1;

/// Upper bound on the number of parents of one snapshot (primary parent
/// included).
pub const MAX_SNAPSHOT_PARENT_COUNT: usize = 64;

#[derive(Clone, Debug, PartialEq, Eq)]
pub struct BinarySnapshotPayload {
    pub line_name: String,
    pub message: Option<String>,
    pub additional_parent_snapshot_indices: Vec<u32>,
}

} // verus!
