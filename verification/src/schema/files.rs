//! File names and record sizes of the content Binary DB.

use vstd::prelude::*;

verus! {

pub const BLOB_BIN: &'static str = "blob.bin";
pub const SNAPSHOT_BIN: &'static str = "snapshot.bin";
pub const SNAPSHOT_PAYLOAD_BIN: &'static str = "snapshot_payload.bin";
pub const OBJECT_PACK_BIN: &'static str = "object_pack.bin";
pub const OBJECT_PACK_MEMBER_BIN: &'static str = "object_pack_member.bin";
pub const TREE_PACK_BIN: &'static str = "tree_pack.bin";
pub const TREE_BIN: &'static str = "tree.bin";

pub const BLOB_ID_IDX: &'static str = "blob_id.idx";
pub const SNAPSHOT_ID_IDX: &'static str = "snapshot_id.idx";
pub const OBJECT_PACK_ID_IDX: &'static str = "object_pack_id.idx";
pub const TREE_ID_IDX: &'static str = "tree_id.idx";
pub const TREE_PACK_ID_IDX: &'static str = "tree_pack_id.idx";

pub const BLOB_RECORD_SIZE: u32 = 64;
pub const SNAPSHOT_RECORD_SIZE: u32 = 88;
pub const OBJECT_PACK_RECORD_SIZE: u32 = 32;
pub const OBJECT_PACK_MEMBER_RECORD_SIZE: u32 = 16;
pub const TREE_PACK_RECORD_SIZE: u32 = 32;
pub const TREE_RECORD_SIZE: u32 = 20;

pub const BLOB_RECORD_SIZE_USIZE: usize = 64;
pub const SNAPSHOT_RECORD_SIZE_USIZE: usize = 88;
pub const OBJECT_PACK_RECORD_SIZE_USIZE: usize = 32;
pub const OBJECT_PACK_MEMBER_RECORD_SIZE_USIZE: usize = 16;
pub const TREE_PACK_RECORD_SIZE_USIZE: usize = 32;
pub const TREE_RECORD_SIZE_USIZE: usize = 20;

} // verus!
