//! Fixed-size content records of the Binary DB and their metadata accessors.

use vstd::prelude::*;

verus! {

#[derive(Clone, Debug, PartialEq, Eq)]
pub struct BinaryBlobRecord {
    pub blob_meta: u8,
    pub hash_kind: u8,
    pub reserved0: u16,
    pub size_bytes: u64,
    pub pack_member_index_plus1: u32,
    pub created_at_s: u64,
    pub pruned_at_s: u64,
    pub sha256: [u8; 32],
}

impl BinaryBlobRecord {
    pub const META_HAS_PACK_MEMBER: u8 = 0b0000_0001;
    pub const META_PRUNED: u8 = 0b0000_0010;
    pub const META_TOMBSTONE: u8 = 0b1000_0000;

    pub open spec fn spec_is_pruned(&self) -> bool {
        self.blob_meta & 0b0000_0010 != 0 || self.pruned_at_s != 0
    }

    pub open spec fn spec_is_tombstone(&self) -> bool {
        self.blob_meta & 0b1000_0000 != 0
    }

    pub fn is_pruned(&self) -> (r: bool)
        ensures
            r == self.spec_is_pruned(),
    {
        self.blob_meta & Self::META_PRUNED != 0 || self.pruned_at_s != 0
    }

    pub fn is_tombstone(&self) -> (r: bool)
        ensures
            r == self.spec_is_tombstone(),
    {
        self.blob_meta & Self::META_TOMBSTONE != 0
    }

    pub fn pack_member_index(&self) -> (r: Option<u32>)
        ensures
            r == plus_one_index(self.pack_member_index_plus1),
    {
        self.pack_member_index_plus1.checked_sub(1)
    }
}

/// A stored "index plus one" field: zero means absent.
pub open spec fn plus_one_index(v: u32) -> Option<u32> {
    if v == 0 {
        None
    } else {
        Some((v - 1) as u32)
    }
}

}

verus! {

#[derive(Clone, Debug, PartialEq, Eq)]
pub struct BinarySnapshotRecord {
    pub snapshot_meta: u8,
    pub history_flags: u8,
    pub payload_len: u16,
    pub payload_offset: u64,
    pub snapshot_hash48: u64,
    pub parent_snapshot_index_plus1: u32,
    pub root_tree_pack_index_plus1: u32,
    pub root_entry_ordinal: u32,
    pub line_index_plus1: u32,
    pub manifest_hash: [u8; 32],
    pub file_count: u32,
    pub total_bytes: u64,
    pub created_at_s: u64,
}

#[derive(Clone, Debug, PartialEq, Eq)]
pub struct BinaryObjectPackRecord {
    pub pack_meta: u8,
    pub pack_format_kind: u8,
    pub pack_hash_hi16: u16,
    pub pack_hash_lo32: u32,
    pub first_member_index: u32,
    pub member_count: u32,
    pub total_bytes: u64,
    pub created_at_s: u64,
}

#[derive(Clone, Debug, PartialEq, Eq)]
pub struct BinaryObjectPackMemberRecord {
    pub member_meta: u8,
    pub delta_chain_depth: u8,
    pub reserved0: u16,
    pub pack_index: u32,
    pub blob_index: u32,
    pub base_blob_index_plus1: u32,
}

#[derive(Clone, Copy, Debug, PartialEq, Eq)]
pub struct BinaryTreePackRecord {
    pub pack_meta: u8,
    pub pack_format_kind: u8,
    pub pack_hash_hi16: u16,
    pub pack_hash_lo32: u32,
    pub first_tree_index: u32,
    pub tree_count: u32,
    pub total_bytes: u64,
    pub created_at_s: u64,
}

#[derive(Clone, Debug, PartialEq, Eq)]
pub struct BinaryTreeRecord {
    pub tree_meta: u8,
    pub reserved0: u8,
    pub pack_entry_ordinal: u32,
    pub entry_count: u32,
    pub tree_hash80: [u8; 10],
}

#[derive(Clone, Copy, Debug, PartialEq, Eq)]
pub enum BinaryObjectPackFormatKind {
    ZstdChunkedV1,
    Reserved(u8),
}

#[derive(Clone, Copy, Debug, PartialEq, Eq)]
pub enum BinarySnapshotKind {
    Line,
    Stash,
    Reserved(u8),
}

#[derive(Clone, Copy, Debug, PartialEq, Eq)]
pub enum BinaryTreePackFormatKind {
    ZstdChunkedTreeV1,
    Reserved(u8),
}

#[derive(Clone, Copy, Debug, PartialEq, Eq)]
pub enum BinaryObjectPackMemberKind {
    Full,
    Delta,
    Reserved(u8),
}

#[derive(Clone, Copy, Debug, PartialEq, Eq)]
pub enum BinaryObjectPackCompressionKind {
    Uncompressed,
    Zstd,
    Reserved(u8),
}

/// 48-bit pack hash assembled from its high 16 and low 32 bits.
pub open spec fn spec_pack_hash48(hi16: u16, lo32: u32) -> u64 {
    (hi16 as int * 0x1_0000_0000 + lo32 as int) as u64
}

pub fn pack_hash48_of(hi16: u16, lo32: u32) -> (r: u64)
    ensures
        r == spec_pack_hash48(hi16, lo32),
        r < 0x1_0000_0000_0000,
{
    let r = ((hi16 as u64) << 32u64) | (lo32 as u64);
    assert(((hi16 as u64) << 32u64) | (lo32 as u64) == (hi16 as u64) * 0x1_0000_0000 + (
    lo32 as u64) && (hi16 as u64) * 0x1_0000_0000 + (lo32 as u64) < 0x1_0000_0000_0000)
        by (bit_vector);
    r
}

pub open spec fn spec_snapshot_kind(meta: u8) -> BinarySnapshotKind {
    let bits = meta & 0b0000_0011;
    if bits == 0 {
        BinarySnapshotKind::Line
    } else if bits == 1 {
        BinarySnapshotKind::Stash
    } else {
        BinarySnapshotKind::Reserved(bits)
    }
}

impl BinarySnapshotRecord {
    pub const META_KIND_MASK: u8 = 0b0000_0011;
    pub const META_HAS_MESSAGE: u8 = 0b0000_0100;
    pub const META_HAS_LINE_NAME_PAYLOAD: u8 = 0b0000_1000;
    pub const META_HAS_ADDITIONAL_PARENTS: u8 = 0b0001_0000;
    pub const META_HAS_ROOT_LOCATOR: u8 = 0b0010_0000;
    pub const META_TOMBSTONE: u8 = 0b1000_0000;
    pub const FLAG_REMOTE_HEAD_HISTORY_BOUNDARY: u8 = 0b0000_0001;
    pub const KNOWN_FLAGS: u8 = 0b0000_0001;

    pub open spec fn spec_is_tombstone(&self) -> bool {
        self.snapshot_meta & 0b1000_0000 != 0
    }

    pub open spec fn spec_has_message(&self) -> bool {
        self.snapshot_meta & 0b0000_0100 != 0
    }

    pub open spec fn spec_has_line_name_payload(&self) -> bool {
        self.snapshot_meta & 0b0000_1000 != 0
    }

    pub open spec fn spec_has_additional_parents(&self) -> bool {
        self.snapshot_meta & 0b0001_0000 != 0
    }

    pub open spec fn spec_has_root_locator(&self) -> bool {
        self.snapshot_meta & 0b0010_0000 != 0
    }

    pub open spec fn spec_is_remote_head_history_boundary(&self) -> bool {
        self.history_flags & 0b0000_0001 != 0
    }

    pub fn is_ready(&self) -> (r: bool)
        ensures
            r == self.spec_has_root_locator(),
    {
        self.has_root_locator()
    }

    pub fn is_tombstone(&self) -> (r: bool)
        ensures
            r == self.spec_is_tombstone(),
    {
        self.snapshot_meta & Self::META_TOMBSTONE != 0
    }

    pub fn kind(&self) -> (r: BinarySnapshotKind)
        ensures
            r == spec_snapshot_kind(self.snapshot_meta),
    {
        let bits = self.snapshot_meta & Self::META_KIND_MASK;
        if bits == 0 {
            BinarySnapshotKind::Line
        } else if bits == 1 {
            BinarySnapshotKind::Stash
        } else {
            BinarySnapshotKind::Reserved(bits)
        }
    }

    pub fn snapshot_hash48(&self) -> (r: u64)
        ensures
            r == self.snapshot_hash48,
    {
        self.snapshot_hash48
    }

    pub fn parent_snapshot_index(&self) -> (r: Option<u32>)
        ensures
            r == plus_one_index(self.parent_snapshot_index_plus1),
    {
        self.parent_snapshot_index_plus1.checked_sub(1)
    }

    pub fn has_additional_parents(&self) -> (r: bool)
        ensures
            r == self.spec_has_additional_parents(),
    {
        self.snapshot_meta & Self::META_HAS_ADDITIONAL_PARENTS != 0
    }

    pub fn is_remote_head_history_boundary(&self) -> (r: bool)
        ensures
            r == self.spec_is_remote_head_history_boundary(),
    {
        self.history_flags & Self::FLAG_REMOTE_HEAD_HISTORY_BOUNDARY != 0
    }

    pub fn root_tree_pack_index(&self) -> (r: Option<u32>)
        ensures
            r == plus_one_index(self.root_tree_pack_index_plus1),
    {
        self.root_tree_pack_index_plus1.checked_sub(1)
    }

    pub fn line_index(&self) -> (r: Option<u32>)
        ensures
            r == plus_one_index(self.line_index_plus1),
    {
        self.line_index_plus1.checked_sub(1)
    }

    pub fn has_message(&self) -> (r: bool)
        ensures
            r == self.spec_has_message(),
    {
        self.snapshot_meta & Self::META_HAS_MESSAGE != 0
    }

    pub fn has_line_name_payload(&self) -> (r: bool)
        ensures
            r == self.spec_has_line_name_payload(),
    {
        self.snapshot_meta & Self::META_HAS_LINE_NAME_PAYLOAD != 0
    }

    pub fn has_root_locator(&self) -> (r: bool)
        ensures
            r == self.spec_has_root_locator(),
    {
        self.snapshot_meta & Self::META_HAS_ROOT_LOCATOR != 0
    }
}

pub open spec fn spec_object_pack_format_kind(v: u8) -> BinaryObjectPackFormatKind {
    if v == 1 {
        BinaryObjectPackFormatKind::ZstdChunkedV1
    } else {
        BinaryObjectPackFormatKind::Reserved(v)
    }
}

impl BinaryObjectPackRecord {
    pub const META_READY: u8 = 0b0000_0001;
    pub const META_CORRUPT: u8 = 0b0000_0010;
    pub const META_PRUNED: u8 = 0b0000_0100;
    pub const META_TOMBSTONE: u8 = 0b1000_0000;

    pub open spec fn spec_is_ready(&self) -> bool {
        self.pack_meta & 0b0000_0001 != 0
    }

    pub open spec fn spec_is_tombstone(&self) -> bool {
        self.pack_meta & 0b1000_0000 != 0
    }

    pub fn format_kind(&self) -> (r: BinaryObjectPackFormatKind)
        ensures
            r == spec_object_pack_format_kind(self.pack_format_kind),
    {
        if self.pack_format_kind == 1 {
            BinaryObjectPackFormatKind::ZstdChunkedV1
        } else {
            BinaryObjectPackFormatKind::Reserved(self.pack_format_kind)
        }
    }

    pub fn is_ready(&self) -> (r: bool)
        ensures
            r == self.spec_is_ready(),
    {
        self.pack_meta & Self::META_READY != 0
    }

    pub fn is_tombstone(&self) -> (r: bool)
        ensures
            r == self.spec_is_tombstone(),
    {
        self.pack_meta & Self::META_TOMBSTONE != 0
    }

    pub fn pack_hash48(&self) -> (r: u64)
        ensures
            r == spec_pack_hash48(self.pack_hash_hi16, self.pack_hash_lo32),
    {
        pack_hash48_of(self.pack_hash_hi16, self.pack_hash_lo32)
    }
}

pub open spec fn spec_member_kind(meta: u8) -> BinaryObjectPackMemberKind {
    let bits = meta & 0b0000_0011;
    if bits == 0 {
        BinaryObjectPackMemberKind::Full
    } else if bits == 1 {
        BinaryObjectPackMemberKind::Delta
    } else {
        BinaryObjectPackMemberKind::Reserved(bits)
    }
}

pub open spec fn spec_compression_kind(meta: u8) -> BinaryObjectPackCompressionKind {
    let bits = (meta >> 2) & 0b0000_0011;
    if bits == 0 {
        BinaryObjectPackCompressionKind::Uncompressed
    } else if bits == 2 {
        BinaryObjectPackCompressionKind::Zstd
    } else {
        BinaryObjectPackCompressionKind::Reserved(bits)
    }
}

impl BinaryObjectPackMemberRecord {
    pub const META_TOMBSTONE: u8 = 0b1000_0000;

    pub open spec fn spec_is_tombstone(&self) -> bool {
        self.member_meta & 0b1000_0000 != 0
    }

    pub fn member_kind(&self) -> (r: BinaryObjectPackMemberKind)
        ensures
            r == spec_member_kind(self.member_meta),
    {
        let bits = self.member_meta & 0b0000_0011;
        if bits == 0 {
            BinaryObjectPackMemberKind::Full
        } else if bits == 1 {
            BinaryObjectPackMemberKind::Delta
        } else {
            BinaryObjectPackMemberKind::Reserved(bits)
        }
    }

    pub fn compression_kind(&self) -> (r: BinaryObjectPackCompressionKind)
        ensures
            r == spec_compression_kind(self.member_meta),
    {
        let bits = (self.member_meta >> 2u8) & 0b0000_0011;
        if bits == 0 {
            BinaryObjectPackCompressionKind::Uncompressed
        } else if bits == 2 {
            BinaryObjectPackCompressionKind::Zstd
        } else {
            BinaryObjectPackCompressionKind::Reserved(bits)
        }
    }

    pub fn is_tombstone(&self) -> (r: bool)
        ensures
            r == self.spec_is_tombstone(),
    {
        self.member_meta & Self::META_TOMBSTONE != 0
    }

    pub fn base_blob_index(&self) -> (r: Option<u32>)
        ensures
            r == plus_one_index(self.base_blob_index_plus1),
    {
        self.base_blob_index_plus1.checked_sub(1)
    }
}

pub open spec fn spec_tree_pack_format_kind(v: u8) -> BinaryTreePackFormatKind {
    if v == 1 {
        BinaryTreePackFormatKind::ZstdChunkedTreeV1
    } else {
        BinaryTreePackFormatKind::Reserved(v)
    }
}

impl BinaryTreePackRecord {
    pub const META_READY: u8 = 0b0000_0001;
    pub const META_CORRUPT: u8 = 0b0000_0010;
    pub const META_SPARSE_PHYSICAL_ORDINALS: u8 = 0b0000_0100;
    pub const META_TOMBSTONE: u8 = 0b1000_0000;

    pub open spec fn spec_is_ready(&self) -> bool {
        self.pack_meta & 0b0000_0001 != 0
    }

    pub open spec fn spec_is_tombstone(&self) -> bool {
        self.pack_meta & 0b1000_0000 != 0
    }

    pub open spec fn spec_has_sparse_physical_ordinals(&self) -> bool {
        self.pack_meta & 0b0000_0100 != 0
    }

    pub fn format_kind(&self) -> (r: BinaryTreePackFormatKind)
        ensures
            r == spec_tree_pack_format_kind(self.pack_format_kind),
    {
        if self.pack_format_kind == 1 {
            BinaryTreePackFormatKind::ZstdChunkedTreeV1
        } else {
            BinaryTreePackFormatKind::Reserved(self.pack_format_kind)
        }
    }

    pub fn is_ready(&self) -> (r: bool)
        ensures
            r == self.spec_is_ready(),
    {
        self.pack_meta & Self::META_READY != 0
    }

    pub fn is_tombstone(&self) -> (r: bool)
        ensures
            r == self.spec_is_tombstone(),
    {
        self.pack_meta & Self::META_TOMBSTONE != 0
    }

    pub fn has_sparse_physical_ordinals(&self) -> (r: bool)
        ensures
            r == self.spec_has_sparse_physical_ordinals(),
    {
        self.pack_meta & Self::META_SPARSE_PHYSICAL_ORDINALS != 0
    }

    pub fn pack_hash48(&self) -> (r: u64)
        ensures
            r == spec_pack_hash48(self.pack_hash_hi16, self.pack_hash_lo32),
    {
        pack_hash48_of(self.pack_hash_hi16, self.pack_hash_lo32)
    }
}

impl BinaryTreeRecord {
    pub const META_TOMBSTONE: u8 = 0b1000_0000;

    pub open spec fn spec_is_tombstone(&self) -> bool {
        self.tree_meta & 0b1000_0000 != 0
    }

    pub fn is_tombstone(&self) -> (r: bool)
        ensures
            r == self.spec_is_tombstone(),
    {
        self.tree_meta & Self::META_TOMBSTONE != 0
    }
}

} // verus!
