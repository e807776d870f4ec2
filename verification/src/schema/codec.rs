//! Little-endian byte codecs of the fixed-size content records and of the
//! snapshot payload.

use vstd::bytes::*;
use vstd::utf8::{decode_utf8, encode_utf8, valid_utf8};
use vstd::prelude::*;
use vstd::slice::slice_subrange;

use super::files::{
    BLOB_BIN, BLOB_ID_IDX, BLOB_RECORD_SIZE, BLOB_RECORD_SIZE_USIZE, OBJECT_PACK_BIN,
    OBJECT_PACK_ID_IDX, OBJECT_PACK_MEMBER_BIN, OBJECT_PACK_MEMBER_RECORD_SIZE,
    OBJECT_PACK_MEMBER_RECORD_SIZE_USIZE, OBJECT_PACK_RECORD_SIZE, OBJECT_PACK_RECORD_SIZE_USIZE,
    SNAPSHOT_BIN, SNAPSHOT_ID_IDX, SNAPSHOT_PAYLOAD_BIN, SNAPSHOT_RECORD_SIZE,
    SNAPSHOT_RECORD_SIZE_USIZE, TREE_BIN, TREE_ID_IDX, TREE_PACK_BIN, TREE_PACK_ID_IDX,
    TREE_PACK_RECORD_SIZE, TREE_PACK_RECORD_SIZE_USIZE, TREE_RECORD_SIZE, TREE_RECORD_SIZE_USIZE,
};
use super::payloads::{
    BinarySnapshotPayload, MAX_SNAPSHOT_PARENT_COUNT, SNAPSHOT_PARENT_EXTENSION_VERSION,
};
use super::records::{
    BinaryBlobRecord, BinaryObjectPackMemberRecord, BinaryObjectPackRecord, BinarySnapshotRecord,
    BinaryTreePackRecord, BinaryTreeRecord,
};
use crate::binary_db::{BinaryFileId, BinaryIndexId, BinaryPayloadFileId};
use crate::error::{BinaryDbError, BinaryDbErrorKind, StoreResult};
use crate::text::{chars_of, decimal_chars, push_all, push_str, spec_decimal, string_from_chars};

verus! {

broadcast use vstd::array::group_array_axioms;

pub const BINARY_DB_CONTENT_LAYOUT_ID: u32 = 1;

// ----- byte-level helpers -------------------------------------------------

#[verifier::inline]
pub open spec fn le16(v: u16) -> Seq<u8> {
    spec_u16_to_le_bytes(v)
}

#[verifier::inline]
pub open spec fn le32(v: u32) -> Seq<u8> {
    spec_u32_to_le_bytes(v)
}

#[verifier::inline]
pub open spec fn le64(v: u64) -> Seq<u8> {
    spec_u64_to_le_bytes(v)
}

pub proof fn lemma_le_lengths()
    ensures
        forall|v: u16| #[trigger] le16(v).len() == 2,
        forall|v: u32| #[trigger] le32(v).len() == 4,
        forall|v: u64| #[trigger] le64(v).len() == 8,
        forall|v: u16| spec_u16_from_le_bytes(#[trigger] le16(v)) == v,
        forall|v: u32| spec_u32_from_le_bytes(#[trigger] le32(v)) == v,
        forall|v: u64| spec_u64_from_le_bytes(#[trigger] le64(v)) == v,
        forall|s: Seq<u8>| s.len() == 2 ==> #[trigger] le16(spec_u16_from_le_bytes(s)) == s,
        forall|s: Seq<u8>| s.len() == 4 ==> #[trigger] le32(spec_u32_from_le_bytes(s)) == s,
        forall|s: Seq<u8>| s.len() == 8 ==> #[trigger] le64(spec_u64_from_le_bytes(s)) == s,
{
    lemma_auto_spec_u16_to_from_le_bytes();
    lemma_auto_spec_u32_to_from_le_bytes();
    lemma_auto_spec_u64_to_from_le_bytes();
    assert forall|v: u16| spec_u16_from_le_bytes(#[trigger] le16(v)) == v by {
        assert(spec_u16_to_le_bytes(v).len() == 2);
    }
    assert forall|v: u32| spec_u32_from_le_bytes(#[trigger] le32(v)) == v by {
        assert(spec_u32_to_le_bytes(v).len() == 4);
    }
}

fn push_u16(out: &mut Vec<u8>, value: u16)
    ensures
        final(out)@ == old(out)@ + le16(value),
{
    let mut b = u16_to_le_bytes(value);
    out.append(&mut b);
}

fn push_u32(out: &mut Vec<u8>, value: u32)
    ensures
        final(out)@ == old(out)@ + le32(value),
{
    let mut b = u32_to_le_bytes(value);
    out.append(&mut b);
}

pub(crate) fn push_u64(out: &mut Vec<u8>, value: u64)
    ensures
        final(out)@ == old(out)@ + le64(value),
{
    let mut b = u64_to_le_bytes(value);
    out.append(&mut b);
}

pub(crate) fn push_slice(out: &mut Vec<u8>, bytes: &[u8])
    ensures
        final(out)@ == old(out)@ + bytes@,
{
    let mut i: usize = 0;
    while i < bytes.len()
        invariant
            i <= bytes.len(),
            out@ == old(out)@ + bytes@.subrange(0, i as int),
        decreases bytes.len() - i,
    {
        out.push(bytes[i]);
        i = i + 1;
        assert(out@ =~= old(out)@ + bytes@.subrange(0, i as int));
    }
    assert(bytes@.subrange(0, bytes@.len() as int) =~= bytes@);
}

fn read_u16(raw: &[u8], off: usize) -> (v: u16)
    requires
        off + 2 <= raw.len(),
    ensures
        v == spec_u16_from_le_bytes(raw@.subrange(off as int, off + 2)),
{
    u16_from_le_bytes(slice_subrange(raw, off, off + 2))
}

pub(crate) fn read_u32(raw: &[u8], off: usize) -> (v: u32)
    requires
        off + 4 <= raw.len(),
    ensures
        v == spec_u32_from_le_bytes(raw@.subrange(off as int, off + 4)),
{
    u32_from_le_bytes(slice_subrange(raw, off, off + 4))
}

fn read_u64(raw: &[u8], off: usize) -> (v: u64)
    requires
        off + 8 <= raw.len(),
    ensures
        v == spec_u64_from_le_bytes(raw@.subrange(off as int, off + 8)),
{
    u64_from_le_bytes(slice_subrange(raw, off, off + 8))
}

fn read_array_32(raw: &[u8], off: usize) -> (a: [u8; 32])
    requires
        off + 32 <= raw.len(),
    ensures
        a@ == raw@.subrange(off as int, off + 32),
{
    let mut a = [0u8; 32];
    let mut i: usize = 0;
    while i < 32
        invariant
            off + 32 <= raw.len(),
            i <= 32,
            forall|k: int| 0 <= k < i ==> a@[k] == raw@[off + k],
        decreases 32 - i,
    {
        a[i] = raw[off + i];
        i = i + 1;
    }
    assert(a@ =~= raw@.subrange(off as int, off + 32));
    a
}

fn read_array_10(raw: &[u8], off: usize) -> (a: [u8; 10])
    requires
        off + 10 <= raw.len(),
    ensures
        a@ == raw@.subrange(off as int, off + 10),
{
    let mut a = [0u8; 10];
    let mut i: usize = 0;
    while i < 10
        invariant
            off + 10 <= raw.len(),
            i <= 10,
            forall|k: int| 0 <= k < i ==> a@[k] == raw@[off + k],
        decreases 10 - i,
    {
        a[i] = raw[off + i];
        i = i + 1;
    }
    assert(a@ =~= raw@.subrange(off as int, off + 10));
    a
}

fn layout_error(kind_label: &str, layout: u32) -> (e: BinaryDbError)
    ensures
        e.kind == BinaryDbErrorKind::LayoutMismatch,
        e.message@ == "unsupported Binary DB "@ + kind_label@ + " layout: "@ + spec_decimal(
            layout as nat,
        ) + "; supported layout is 1"@,
{
    let mut v = chars_of("unsupported Binary DB ");
    push_str(&mut v, kind_label);
    push_str(&mut v, " layout: ");
    let d = decimal_chars(layout as u64);
    push_all(&mut v, &d);
    push_str(&mut v, "; supported layout is 1");
    BinaryDbError::new(BinaryDbErrorKind::LayoutMismatch, string_from_chars(&v))
}

fn require_supported_content_layout(layout: u32) -> (r: StoreResult<()>)
    ensures
        r is Ok <==> layout == BINARY_DB_CONTENT_LAYOUT_ID,
        r matches Err(e) ==> e.kind == BinaryDbErrorKind::LayoutMismatch,
{
    if layout == BINARY_DB_CONTENT_LAYOUT_ID {
        Ok(())
    } else {
        Err(layout_error("content", layout))
    }
}

fn require_supported_snapshot_layout(layout: u32) -> (r: StoreResult<()>)
    ensures
        r is Ok <==> layout == BINARY_DB_CONTENT_LAYOUT_ID,
        r matches Err(e) ==> e.kind == BinaryDbErrorKind::LayoutMismatch,
{
    if layout == BINARY_DB_CONTENT_LAYOUT_ID {
        Ok(())
    } else {
        Err(layout_error("snapshot", layout))
    }
}

fn require_raw_len(raw: &[u8], expected: usize, label: &str) -> (r: StoreResult<()>)
    ensures
        r is Ok <==> raw@.len() == expected,
        r matches Err(e) ==> e.kind == BinaryDbErrorKind::Corruption,
{
    if raw.len() != expected {
        let mut v = chars_of(label);
        push_str(&mut v, " is ");
        let d = decimal_chars(raw.len() as u64);
        push_all(&mut v, &d);
        push_str(&mut v, " bytes, expected ");
        let e = decimal_chars(expected as u64);
        push_all(&mut v, &e);
        return Err(BinaryDbError::new(BinaryDbErrorKind::Corruption, string_from_chars(&v)));
    }
    Ok(())
}

// ----- blob records -------------------------------------------------------

/// The 64 bytes of a blob record.
pub open spec fn blob_record_bytes(r: BinaryBlobRecord) -> Seq<u8> {
    seq![r.blob_meta, r.hash_kind] + le16(r.reserved0) + le64(r.size_bytes) + le32(
        r.pack_member_index_plus1,
    ) + le64(r.created_at_s) + le64(r.pruned_at_s) + r.sha256@
}

pub struct BinaryBlobCodec<const LAYOUT: u32>;

impl<const LAYOUT: u32> BinaryBlobCodec<LAYOUT> {
    pub const RECORD_SIZE: u32 = 64;

    pub fn record_file() -> (f: BinaryFileId)
        ensures
            f.path@ == BLOB_BIN@,
            f.layout_id == LAYOUT,
            f.record_size == BLOB_RECORD_SIZE,
    {
        BinaryFileId::new(BLOB_BIN, LAYOUT, BLOB_RECORD_SIZE)
    }

    pub fn id_index() -> (i: BinaryIndexId)
        ensures
            i.path@ == BLOB_ID_IDX@,
            i.layout_id == LAYOUT,
            i.fixed_key_size == Some(10u32),
            i.plus_one,
    {
        BinaryIndexId::new_fixed(BLOB_ID_IDX, LAYOUT, 10, true)
    }

    pub fn encode_record(record: &BinaryBlobRecord) -> (r: StoreResult<Vec<u8>>)
        ensures
            r is Ok <==> LAYOUT == BINARY_DB_CONTENT_LAYOUT_ID,
            r matches Ok(bytes) ==> bytes@ == blob_record_bytes(*record),
            r matches Err(e) ==> e.kind == BinaryDbErrorKind::LayoutMismatch,
    {
        require_supported_content_layout(LAYOUT)?;
        let mut out: Vec<u8> = Vec::new();
        out.push(record.blob_meta);
        out.push(record.hash_kind);
        push_u16(&mut out, record.reserved0);
        push_u64(&mut out, record.size_bytes);
        push_u32(&mut out, record.pack_member_index_plus1);
        push_u64(&mut out, record.created_at_s);
        push_u64(&mut out, record.pruned_at_s);
        push_slice(&mut out, &record.sha256);
        assert(out@ =~= blob_record_bytes(*record));
        Ok(out)
    }

    pub fn decode_record(raw: &[u8]) -> (r: StoreResult<BinaryBlobRecord>)
        ensures
            r is Ok <==> (LAYOUT == BINARY_DB_CONTENT_LAYOUT_ID && raw@.len() == 64),
            r matches Ok(rec) ==> blob_record_bytes(rec) == raw@,
            r matches Err(e) ==> (LAYOUT != BINARY_DB_CONTENT_LAYOUT_ID ==> e.kind
                == BinaryDbErrorKind::LayoutMismatch),
    {
        require_supported_content_layout(LAYOUT)?;
        require_raw_len(raw, BLOB_RECORD_SIZE_USIZE, "BinaryBlobRecord")?;
        let rec = BinaryBlobRecord {
            blob_meta: raw[0],
            hash_kind: raw[1],
            reserved0: read_u16(raw, 2),
            size_bytes: read_u64(raw, 4),
            pack_member_index_plus1: read_u32(raw, 12),
            created_at_s: read_u64(raw, 16),
            pruned_at_s: read_u64(raw, 24),
            sha256: read_array_32(raw, 32),
        };
        proof {
            lemma_le_lengths();
            assert(raw@.subrange(2, 4).len() == 2);
            assert(raw@.subrange(4, 12).len() == 8);
            assert(raw@.subrange(12, 16).len() == 4);
            assert(raw@.subrange(16, 24).len() == 8);
            assert(raw@.subrange(24, 32).len() == 8);
            assert(blob_record_bytes(rec) =~= raw@);
        }
        Ok(rec)
    }
}

/// Distinct blob records encode to distinct bytes.
pub proof fn lemma_blob_record_bytes_injective(a: BinaryBlobRecord, b: BinaryBlobRecord)
    requires
        blob_record_bytes(a) == blob_record_bytes(b),
    ensures
        a == b,
{
    lemma_le_lengths();
    let x = blob_record_bytes(a);
    let y = blob_record_bytes(b);
    assert(x[0] == a.blob_meta && y[0] == b.blob_meta);
    assert(x[1] == a.hash_kind && y[1] == b.hash_kind);
    assert(x.subrange(2, 4) =~= le16(a.reserved0));
    assert(y.subrange(2, 4) =~= le16(b.reserved0));
    assert(x.subrange(4, 12) =~= le64(a.size_bytes));
    assert(y.subrange(4, 12) =~= le64(b.size_bytes));
    assert(x.subrange(12, 16) =~= le32(a.pack_member_index_plus1));
    assert(y.subrange(12, 16) =~= le32(b.pack_member_index_plus1));
    assert(x.subrange(16, 24) =~= le64(a.created_at_s));
    assert(y.subrange(16, 24) =~= le64(b.created_at_s));
    assert(x.subrange(24, 32) =~= le64(a.pruned_at_s));
    assert(y.subrange(24, 32) =~= le64(b.pruned_at_s));
    assert(x.subrange(32, 64) =~= a.sha256@);
    assert(y.subrange(32, 64) =~= b.sha256@);
    assert(a.sha256 =~= b.sha256);
}

} // verus!

verus! {

// ----- snapshot records ---------------------------------------------------

/// The 88 bytes of a snapshot record.
pub open spec fn snapshot_record_bytes(r: BinarySnapshotRecord) -> Seq<u8> {
    seq![r.snapshot_meta, r.history_flags] + le16(r.payload_len) + le64(r.payload_offset) + le64(
        r.snapshot_hash48,
    ) + le32(r.parent_snapshot_index_plus1) + le32(r.root_tree_pack_index_plus1) + le32(
        r.root_entry_ordinal,
    ) + le32(r.line_index_plus1) + r.manifest_hash@ + le32(r.file_count) + le64(r.total_bytes)
        + le64(r.created_at_s)
}

/// The schema rules every persisted snapshot record obeys.
pub open spec fn snapshot_record_valid(r: BinarySnapshotRecord) -> bool {
    &&& r.snapshot_meta & 0b0100_0000 == 0
    &&& r.history_flags & 0b1111_1110 == 0
    &&& r.snapshot_hash48 < 0x1_0000_0000_0000
    &&& !(r.payload_len > 0 && r.payload_offset < 4)
    &&& !(r.spec_has_additional_parents() && r.parent_snapshot_index_plus1 == 0)
    &&& !(r.spec_has_additional_parents() && r.payload_len < 9)
    &&& !(r.spec_is_remote_head_history_boundary() && (r.parent_snapshot_index_plus1 != 0
        || r.spec_has_additional_parents()))
    &&& r.spec_has_root_locator() == (r.root_tree_pack_index_plus1 != 0)
}

fn invalid(message: &str) -> (e: BinaryDbError)
    ensures
        e.kind == BinaryDbErrorKind::Invalid,
        e.message@ == message@,
{
    BinaryDbError::new(BinaryDbErrorKind::Invalid, crate::text::owned(message))
}

fn validate_snapshot_record(record: &BinarySnapshotRecord) -> (r: StoreResult<()>)
    ensures
        r is Ok <==> snapshot_record_valid(*record),
        r matches Err(e) ==> e.kind == BinaryDbErrorKind::Invalid,
{
    if record.snapshot_meta & 0b0100_0000u8 != 0 {
        return Err(invalid("BinarySnapshotRecord has reserved snapshot_meta bits set"));
    }
    if record.history_flags & !BinarySnapshotRecord::KNOWN_FLAGS != 0 {
        assert(!0b0000_0001u8 == 0b1111_1110u8) by (bit_vector);
        return Err(invalid("BinarySnapshotRecord has unknown history flags"));
    }
    assert(!0b0000_0001u8 == 0b1111_1110u8) by (bit_vector);
    if record.snapshot_hash48 >> 48u64 != 0 {
        let h = record.snapshot_hash48;
        assert(h >> 48u64 != 0 ==> h >= 0x1_0000_0000_0000) by (bit_vector);
        return Err(invalid("BinarySnapshotRecord snapshot_hash48 high 16 bits must be zero"));
    }
    let h = record.snapshot_hash48;
    assert(h >> 48u64 == 0 ==> h < 0x1_0000_0000_0000) by (bit_vector);
    if record.payload_len > 0 && record.payload_offset < 4 {
        return Err(invalid("BinarySnapshotRecord payload_offset must follow the layout header"));
    }
    if record.has_additional_parents() && record.parent_snapshot_index().is_none() {
        return Err(
            invalid("BinarySnapshotRecord additional-parent flag requires an ordinal-zero parent"),
        );
    }
    if record.has_additional_parents() && record.payload_len < 9 {
        return Err(invalid("BinarySnapshotRecord additional-parent payload is too short"));
    }
    if record.is_remote_head_history_boundary() && (record.parent_snapshot_index().is_some()
        || record.has_additional_parents()) {
        return Err(
            invalid("BinarySnapshotRecord remote-head history boundary cannot have local parents"),
        );
    }
    if record.has_root_locator() != (record.root_tree_pack_index_plus1 != 0) {
        return Err(
            invalid("BinarySnapshotRecord root locator flag and pack index must be set together"),
        );
    }
    Ok(())
}

pub struct BinarySnapshotCodec<const LAYOUT: u32>;

impl<const LAYOUT: u32> BinarySnapshotCodec<LAYOUT> {
    pub const RECORD_SIZE: u32 = 88;

    pub fn record_file() -> (f: BinaryFileId)
        ensures
            f.path@ == SNAPSHOT_BIN@,
            f.layout_id == LAYOUT,
            f.record_size == SNAPSHOT_RECORD_SIZE,
    {
        BinaryFileId::new(SNAPSHOT_BIN, LAYOUT, SNAPSHOT_RECORD_SIZE)
    }

    pub fn id_index() -> (i: BinaryIndexId)
        ensures
            i.path@ == SNAPSHOT_ID_IDX@,
            i.layout_id == LAYOUT,
            i.fixed_key_size == Some(8u32),
            i.plus_one,
    {
        BinaryIndexId::new_fixed(SNAPSHOT_ID_IDX, LAYOUT, 8, true)
    }

    pub fn payload_file() -> (f: BinaryPayloadFileId)
        ensures
            f.path@ == SNAPSHOT_PAYLOAD_BIN@,
            f.layout_id == LAYOUT,
    {
        BinaryPayloadFileId::new(SNAPSHOT_PAYLOAD_BIN, LAYOUT)
    }

    pub fn encode_record(record: &BinarySnapshotRecord) -> (r: StoreResult<Vec<u8>>)
        ensures
            r is Ok <==> (LAYOUT == BINARY_DB_CONTENT_LAYOUT_ID && snapshot_record_valid(*record)),
            r matches Ok(bytes) ==> bytes@ == snapshot_record_bytes(*record),
            r matches Err(e) ==> (LAYOUT != BINARY_DB_CONTENT_LAYOUT_ID ==> e.kind
                == BinaryDbErrorKind::LayoutMismatch),
            r matches Err(e) ==> (LAYOUT == BINARY_DB_CONTENT_LAYOUT_ID ==> e.kind
                == BinaryDbErrorKind::Invalid),
    {
        require_supported_snapshot_layout(LAYOUT)?;
        validate_snapshot_record(record)?;
        let mut out: Vec<u8> = Vec::new();
        out.push(record.snapshot_meta);
        out.push(record.history_flags);
        push_u16(&mut out, record.payload_len);
        push_u64(&mut out, record.payload_offset);
        push_u64(&mut out, record.snapshot_hash48);
        push_u32(&mut out, record.parent_snapshot_index_plus1);
        push_u32(&mut out, record.root_tree_pack_index_plus1);
        push_u32(&mut out, record.root_entry_ordinal);
        push_u32(&mut out, record.line_index_plus1);
        push_slice(&mut out, &record.manifest_hash);
        push_u32(&mut out, record.file_count);
        push_u64(&mut out, record.total_bytes);
        push_u64(&mut out, record.created_at_s);
        assert(out@ =~= snapshot_record_bytes(*record));
        Ok(out)
    }

    pub fn decode_record(raw: &[u8]) -> (r: StoreResult<BinarySnapshotRecord>)
        ensures
            r is Ok <==> (LAYOUT == BINARY_DB_CONTENT_LAYOUT_ID && raw@.len() == 88 && exists|
                rec: BinarySnapshotRecord,
            | snapshot_record_bytes(rec) == raw@ && snapshot_record_valid(rec)),
            r matches Ok(rec) ==> snapshot_record_bytes(rec) == raw@ && snapshot_record_valid(rec),
            r matches Err(e) ==> (LAYOUT != BINARY_DB_CONTENT_LAYOUT_ID ==> e.kind
                == BinaryDbErrorKind::LayoutMismatch),
    {
        require_supported_snapshot_layout(LAYOUT)?;
        require_raw_len(raw, SNAPSHOT_RECORD_SIZE_USIZE, "BinarySnapshotRecord")?;
        let rec = BinarySnapshotRecord {
            snapshot_meta: raw[0],
            history_flags: raw[1],
            payload_len: read_u16(raw, 2),
            payload_offset: read_u64(raw, 4),
            snapshot_hash48: read_u64(raw, 12),
            parent_snapshot_index_plus1: read_u32(raw, 20),
            root_tree_pack_index_plus1: read_u32(raw, 24),
            root_entry_ordinal: read_u32(raw, 28),
            line_index_plus1: read_u32(raw, 32),
            manifest_hash: read_array_32(raw, 36),
            file_count: read_u32(raw, 68),
            total_bytes: read_u64(raw, 72),
            created_at_s: read_u64(raw, 80),
        };
        proof {
            lemma_le_lengths();
            assert(raw@.subrange(2, 4).len() == 2);
            assert(raw@.subrange(4, 12).len() == 8);
            assert(raw@.subrange(12, 20).len() == 8);
            assert(raw@.subrange(20, 24).len() == 4);
            assert(raw@.subrange(24, 28).len() == 4);
            assert(raw@.subrange(28, 32).len() == 4);
            assert(raw@.subrange(32, 36).len() == 4);
            assert(raw@.subrange(68, 72).len() == 4);
            assert(raw@.subrange(72, 80).len() == 8);
            assert(raw@.subrange(80, 88).len() == 8);
            assert(snapshot_record_bytes(rec) =~= raw@);
        }
        let checked = validate_snapshot_record(&rec);
        if checked.is_err() {
            proof {
                assert forall|other: BinarySnapshotRecord|
                    snapshot_record_bytes(other) == raw@ implies !snapshot_record_valid(other) by {
                    lemma_snapshot_record_bytes_injective(other, rec);
                }
            }
            return Err(checked.unwrap_err());
        }
        Ok(rec)
    }

    pub fn encode_payload(payload: &BinarySnapshotPayload) -> (r: StoreResult<Vec<u8>>)
        ensures
            r is Ok <==> (LAYOUT == BINARY_DB_CONTENT_LAYOUT_ID && payload_encodable(*payload)),
            r matches Ok(bytes) ==> bytes@ == payload_bytes(*payload),
            r matches Err(e) ==> (LAYOUT != BINARY_DB_CONTENT_LAYOUT_ID ==> e.kind
                == BinaryDbErrorKind::LayoutMismatch),
    {
        require_supported_snapshot_layout(LAYOUT)?;
        encode_snapshot_payload(payload)
    }

    pub fn decode_payload(raw: &[u8], has_line_name_payload: bool, has_additional_parents: bool) -> (r:
        StoreResult<BinarySnapshotPayload>)
        ensures
            r is Ok <==> (LAYOUT == BINARY_DB_CONTENT_LAYOUT_ID && spec_decode_payload(
                raw@,
                has_line_name_payload,
                has_additional_parents,
            ) is Some),
            r matches Ok(p) ==> decoded_payload_matches(
                p,
                spec_decode_payload(raw@, has_line_name_payload, has_additional_parents)->0,
            ),
            r matches Err(e) ==> (LAYOUT != BINARY_DB_CONTENT_LAYOUT_ID ==> e.kind
                == BinaryDbErrorKind::LayoutMismatch),
    {
        require_supported_snapshot_layout(LAYOUT)?;
        decode_snapshot_payload(raw, has_line_name_payload, has_additional_parents)
    }
}

/// Distinct snapshot records encode to distinct bytes.
pub proof fn lemma_snapshot_record_bytes_injective(a: BinarySnapshotRecord, b: BinarySnapshotRecord)
    requires
        snapshot_record_bytes(a) == snapshot_record_bytes(b),
    ensures
        a == b,
{
    lemma_le_lengths();
    let x = snapshot_record_bytes(a);
    let y = snapshot_record_bytes(b);
    assert(x[0] == a.snapshot_meta && y[0] == b.snapshot_meta);
    assert(x[1] == a.history_flags && y[1] == b.history_flags);
    assert(x.subrange(2, 4) =~= le16(a.payload_len));
    assert(y.subrange(2, 4) =~= le16(b.payload_len));
    assert(x.subrange(4, 12) =~= le64(a.payload_offset));
    assert(y.subrange(4, 12) =~= le64(b.payload_offset));
    assert(x.subrange(12, 20) =~= le64(a.snapshot_hash48));
    assert(y.subrange(12, 20) =~= le64(b.snapshot_hash48));
    assert(x.subrange(20, 24) =~= le32(a.parent_snapshot_index_plus1));
    assert(y.subrange(20, 24) =~= le32(b.parent_snapshot_index_plus1));
    assert(x.subrange(24, 28) =~= le32(a.root_tree_pack_index_plus1));
    assert(y.subrange(24, 28) =~= le32(b.root_tree_pack_index_plus1));
    assert(x.subrange(28, 32) =~= le32(a.root_entry_ordinal));
    assert(y.subrange(28, 32) =~= le32(b.root_entry_ordinal));
    assert(x.subrange(32, 36) =~= le32(a.line_index_plus1));
    assert(y.subrange(32, 36) =~= le32(b.line_index_plus1));
    assert(x.subrange(36, 68) =~= a.manifest_hash@);
    assert(y.subrange(36, 68) =~= b.manifest_hash@);
    assert(a.manifest_hash =~= b.manifest_hash);
    assert(x.subrange(68, 72) =~= le32(a.file_count));
    assert(y.subrange(68, 72) =~= le32(b.file_count));
    assert(x.subrange(72, 80) =~= le64(a.total_bytes));
    assert(y.subrange(72, 80) =~= le64(b.total_bytes));
    assert(x.subrange(80, 88) =~= le64(a.created_at_s));
    assert(y.subrange(80, 88) =~= le64(b.created_at_s));
}

} // verus!

verus! {

// ----- snapshot payloads --------------------------------------------------

/// The plus-one little-endian words of the additional parent indices.
pub open spec fn parent_extension_words(indices: Seq<u32>) -> Seq<u8>
    decreases indices.len(),
{
    if indices.len() == 0 {
        seq![]
    } else {
        parent_extension_words(indices.drop_last()) + le32((indices.last() + 1) as u32)
    }
}

pub open spec fn message_chars(p: BinarySnapshotPayload) -> Seq<char> {
    match p.message {
        Some(m) => m@,
        None => seq![],
    }
}

/// The parent extension header and words, present only for merge snapshots.
pub open spec fn parent_extension_bytes(indices: Seq<u32>) -> Seq<u8> {
    if indices.len() == 0 {
        seq![]
    } else {
        seq![SNAPSHOT_PARENT_EXTENSION_VERSION] + le16(indices.len() as u16)
            + parent_extension_words(indices)
    }
}

/// The bytes of a snapshot payload: optional parent extension, UTF-8
/// message with its u16 length, then the UTF-8 line name.
pub open spec fn payload_bytes(p: BinarySnapshotPayload) -> Seq<u8> {
    let msg = encode_utf8(message_chars(p));
    parent_extension_bytes(p.additional_parent_snapshot_indices@) + le16(msg.len() as u16) + msg
        + encode_utf8(p.line_name@)
}

/// Whether a payload fits the snapshot payload format.
pub open spec fn payload_encodable(p: BinarySnapshotPayload) -> bool {
    &&& p.additional_parent_snapshot_indices@.len() < MAX_SNAPSHOT_PARENT_COUNT
    &&& encode_utf8(message_chars(p)).len() <= 0xffff
    &&& forall|i: int|
        0 <= i < p.additional_parent_snapshot_indices@.len()
            ==> #[trigger] p.additional_parent_snapshot_indices@[i] < u32::MAX
    &&& payload_bytes(p).len() <= 0xffff
}

pub open spec fn plus_one_word(raw: Seq<u8>, i: int) -> u32 {
    spec_u32_from_le_bytes(raw.subrange(3 + 4 * i, 7 + 4 * i))
}

/// Parent indices of a parent extension, and the offset that follows it.
pub open spec fn spec_decode_parent_extension(raw: Seq<u8>) -> Option<(Seq<u32>, int)> {
    if raw.len() < 1 || raw[0] != SNAPSHOT_PARENT_EXTENSION_VERSION || raw.len() < 3 {
        None
    } else {
        let count = spec_u16_from_le_bytes(raw.subrange(1, 3)) as int;
        if count == 0 || count >= MAX_SNAPSHOT_PARENT_COUNT {
            None
        } else if raw.len() - 3 < count * 4 + 2 {
            None
        } else if exists|i: int| 0 <= i < count && #[trigger] plus_one_word(raw, i) == 0 {
            None
        } else {
            Some(
                (
                    Seq::new(count as nat, |i: int| (plus_one_word(raw, i) - 1) as u32),
                    3 + 4 * count,
                ),
            )
        }
    }
}

/// Parent indices, message bytes and line-name bytes of a payload, when the
/// bytes are a well-formed payload for the given record flags.
pub open spec fn spec_decode_payload(raw: Seq<u8>, has_line: bool, has_add: bool) -> Option<
    (Seq<u32>, Seq<u8>, Seq<u8>),
> {
    let head: Option<(Seq<u32>, int)> = if has_add {
        spec_decode_parent_extension(raw)
    } else {
        Some((seq![], 0))
    };
    match head {
        None => None,
        Some(h) => {
            let rest = raw.subrange(h.1, raw.len() as int);
            if rest.len() < 2 {
                None
            } else {
                let ml = spec_u16_from_le_bytes(rest.subrange(0, 2)) as int;
                if rest.len() - 2 < ml {
                    None
                } else {
                    let msg = rest.subrange(2, 2 + ml);
                    let line = rest.subrange(2 + ml, rest.len() as int);
                    if !has_line && line.len() > 0 {
                        None
                    } else if !valid_utf8(line) {
                        None
                    } else if msg.len() > 0 && !valid_utf8(msg) {
                        None
                    } else {
                        Some((h.0, msg, line))
                    }
                }
            }
        },
    }
}

/// A decoded payload carries exactly the parsed indices and texts; an empty
/// message decodes to `None`.
pub open spec fn decoded_payload_matches(
    p: BinarySnapshotPayload,
    d: (Seq<u32>, Seq<u8>, Seq<u8>),
) -> bool {
    &&& p.additional_parent_snapshot_indices@ == d.0
    &&& p.line_name@ == decode_utf8(d.2)
    &&& (d.1.len() == 0 ==> p.message is None)
    &&& (d.1.len() > 0 ==> (p.message matches Some(m) && m@ == decode_utf8(d.1)))
}

/// std `String::from_utf8`: `Some` exactly when the bytes are valid UTF-8,
/// holding the decoded characters.
#[verifier::external_body]
fn string_from_utf8(bytes: Vec<u8>) -> (r: Option<String>)
    ensures
        r is Some <==> valid_utf8(bytes@),
        r matches Some(s) ==> s@ == decode_utf8(bytes@),
{
    String::from_utf8(bytes).ok()
}

fn encode_snapshot_payload(payload: &BinarySnapshotPayload) -> (r: StoreResult<Vec<u8>>)
    ensures
        r is Ok <==> payload_encodable(*payload),
        r matches Ok(bytes) ==> bytes@ == payload_bytes(*payload),
{
    let line_name: &[u8] = payload.line_name.as_str().as_bytes();
    let message: &[u8] = match &payload.message {
        Some(m) => m.as_str().as_bytes(),
        None => &[],
    };
    assert(message@ == encode_utf8(message_chars(*payload)));
    let indices = &payload.additional_parent_snapshot_indices;
    let count = indices.len();
    if count >= MAX_SNAPSHOT_PARENT_COUNT {
        return Err(invalid("snapshot parent count exceeds the supported maximum"));
    }
    if message.len() > 0xffff {
        return Err(invalid("snapshot message exceeds u16::MAX bytes"));
    }
    let mut out: Vec<u8> = Vec::new();
    if count > 0 {
        out.push(SNAPSHOT_PARENT_EXTENSION_VERSION);
        push_u16(&mut out, count as u16);
        let mut i: usize = 0;
        while i < count
            invariant
                count == indices@.len(),
                indices@ == payload.additional_parent_snapshot_indices@,
                i <= count,
                out@ == seq![SNAPSHOT_PARENT_EXTENSION_VERSION] + le16(count as u16)
                    + parent_extension_words(indices@.subrange(0, i as int)),
                forall|k: int| 0 <= k < i ==> #[trigger] indices@[k] < u32::MAX,
            decreases count - i,
        {
            let parent = indices[i];
            if parent == u32::MAX {
                proof {
                    assert(!payload_encodable(*payload)) by {
                        assert(payload.additional_parent_snapshot_indices@[i as int] == u32::MAX);
                    }
                }
                return Err(invalid("snapshot parent index plus-one overflow"));
            }
            push_u32(&mut out, parent + 1);
            proof {
                let s = indices@.subrange(0, i + 1);
                assert(s.drop_last() =~= indices@.subrange(0, i as int));
                assert(s.last() == parent);
            }
            i = i + 1;
        }
        assert(indices@.subrange(0, count as int) =~= indices@);
    }
    proof {
        if count == 0 {
            assert(out@ =~= parent_extension_bytes(indices@));
        }
    }
    assert(out@ == parent_extension_bytes(indices@));
    push_u16(&mut out, message.len() as u16);
    push_slice(&mut out, message);
    push_slice(&mut out, line_name);
    assert(out@ =~= payload_bytes(*payload));
    if out.len() > 0xffff {
        return Err(invalid("snapshot payload exceeds u16::MAX bytes"));
    }
    Ok(out)
}

fn truncated(label: &str) -> (e: BinaryDbError)
    ensures
        e.kind == BinaryDbErrorKind::Corruption,
        e.message@ == label@ + " is truncated"@,
{
    let mut v = chars_of(label);
    push_str(&mut v, " is truncated");
    BinaryDbError::new(BinaryDbErrorKind::Corruption, string_from_chars(&v))
}

fn decode_parent_extension(raw: &[u8]) -> (r: StoreResult<(Vec<u32>, usize)>)
    ensures
        r is Ok <==> spec_decode_parent_extension(raw@) is Some,
        r matches Ok(v) ==> v.0@ == (spec_decode_parent_extension(raw@)->0).0 && v.1
            == (spec_decode_parent_extension(raw@)->0).1,
{
    if raw.len() < 1 {
        return Err(truncated("parent_extension_version"));
    }
    let version = raw[0];
    if version != SNAPSHOT_PARENT_EXTENSION_VERSION {
        return Err(invalid("unsupported snapshot parent extension version; supported version is 1"));
    }
    if raw.len() < 3 {
        return Err(truncated("additional_parent_count"));
    }
    let count = read_u16(raw, 1) as usize;
    if count == 0 {
        return Err(invalid("snapshot additional-parent flag requires at least one additional parent"));
    }
    if count >= MAX_SNAPSHOT_PARENT_COUNT {
        return Err(invalid("snapshot parent count exceeds the supported maximum"));
    }
    let required = count * 4 + 2;
    if raw.len() - 3 < required {
        return Err(invalid("snapshot parent extension is truncated"));
    }
    let mut indices: Vec<u32> = Vec::new();
    let mut i: usize = 0;
    while i < count
        invariant
            count == spec_u16_from_le_bytes(raw@.subrange(1, 3)) as int,
            count < MAX_SNAPSHOT_PARENT_COUNT,
            raw@.len() - 3 >= count * 4 + 2,
            i <= count,
            indices@.len() == i,
            forall|k: int| 0 <= k < i ==> plus_one_word(raw@, k) != 0,
            forall|k: int| 0 <= k < i ==> #[trigger] indices@[k] == (plus_one_word(raw@, k) - 1) as u32,
        decreases count - i,
    {
        let word = read_u32(raw, 3 + 4 * i);
        assert(word == plus_one_word(raw@, i as int));
        if word == 0 {
            return Err(invalid("snapshot additional parent contains a zero plus-one index"));
        }
        indices.push(word - 1);
        i = i + 1;
    }
    proof {
        let spec = spec_decode_parent_extension(raw@);
        assert(!exists|k: int| 0 <= k < count && #[trigger] plus_one_word(raw@, k) == 0);
        assert(indices@ =~= (spec->0).0);
    }
    Ok((indices, 3 + 4 * count))
}

fn decode_snapshot_payload(raw: &[u8], has_line_name_payload: bool, has_additional_parents: bool) -> (r:
    StoreResult<BinarySnapshotPayload>)
    ensures
        r is Ok <==> spec_decode_payload(raw@, has_line_name_payload, has_additional_parents) is Some,
        r matches Ok(p) ==> decoded_payload_matches(
            p,
            spec_decode_payload(raw@, has_line_name_payload, has_additional_parents)->0,
        ),
{
    let (indices, start) = if has_additional_parents {
        decode_parent_extension(raw)?
    } else {
        (Vec::new(), 0)
    };
    let ghost rest = raw@.subrange(start as int, raw@.len() as int);
    if raw.len() - start < 2 {
        return Err(truncated("message_len"));
    }
    let ml = read_u16(raw, start) as usize;
    assert(raw@.subrange(start as int, start + 2) =~= rest.subrange(0, 2));
    if raw.len() - start - 2 < ml {
        return Err(truncated("message"));
    }
    let msg_slice = slice_subrange(raw, start + 2, start + 2 + ml);
    let line_slice = slice_subrange(raw, start + 2 + ml, raw.len());
    assert(msg_slice@ =~= rest.subrange(2, 2 + ml));
    assert(line_slice@ =~= rest.subrange(2 + ml, rest.len() as int));
    if !has_line_name_payload && line_slice.len() > 0 {
        return Err(invalid("BinarySnapshotPayload has line-name bytes without metadata flag"));
    }
    let line_name = match string_from_utf8(vstd::slice::slice_to_vec(line_slice)) {
        Some(s) => s,
        None => {
            return Err(invalid("snapshot line_name is not UTF-8"));
        },
    };
    let message = if msg_slice.len() == 0 {
        None
    } else {
        match string_from_utf8(vstd::slice::slice_to_vec(msg_slice)) {
            Some(s) => Some(s),
            None => {
                return Err(invalid("snapshot message is not UTF-8"));
            },
        }
    };
    Ok(
        BinarySnapshotPayload {
            line_name,
            message,
            additional_parent_snapshot_indices: indices,
        },
    )
}

} // verus!

verus! {

// ----- pack, member and tree records -------------------------------------

/// The 32 bytes of an object pack record.
pub open spec fn object_pack_record_bytes(r: BinaryObjectPackRecord) -> Seq<u8> {
    seq![r.pack_meta, r.pack_format_kind] + le16(r.pack_hash_hi16) + le32(r.pack_hash_lo32) + le32(
        r.first_member_index,
    ) + le32(r.member_count) + le64(r.total_bytes) + le64(r.created_at_s)
}

/// The 16 bytes of an object pack member record.
pub open spec fn object_pack_member_record_bytes(r: BinaryObjectPackMemberRecord) -> Seq<u8> {
    seq![r.member_meta, r.delta_chain_depth] + le16(r.reserved0) + le32(r.pack_index) + le32(
        r.blob_index,
    ) + le32(r.base_blob_index_plus1)
}

/// The 32 bytes of a tree pack record.
pub open spec fn tree_pack_record_bytes(r: BinaryTreePackRecord) -> Seq<u8> {
    seq![r.pack_meta, r.pack_format_kind] + le16(r.pack_hash_hi16) + le32(r.pack_hash_lo32) + le32(
        r.first_tree_index,
    ) + le32(r.tree_count) + le64(r.total_bytes) + le64(r.created_at_s)
}

/// The 20 bytes of a tree record.
pub open spec fn tree_record_bytes(r: BinaryTreeRecord) -> Seq<u8> {
    seq![r.tree_meta, r.reserved0] + le32(r.pack_entry_ordinal) + le32(r.entry_count)
        + r.tree_hash80@
}

pub struct BinaryObjectPackCodec<const LAYOUT: u32>;

impl<const LAYOUT: u32> BinaryObjectPackCodec<LAYOUT> {
    pub const RECORD_SIZE: u32 = 32;

    pub fn record_file() -> (f: BinaryFileId)
        ensures
            f.path@ == OBJECT_PACK_BIN@,
            f.layout_id == LAYOUT,
            f.record_size == OBJECT_PACK_RECORD_SIZE,
    {
        BinaryFileId::new(OBJECT_PACK_BIN, LAYOUT, OBJECT_PACK_RECORD_SIZE)
    }

    pub fn id_index() -> (i: BinaryIndexId)
        ensures
            i.path@ == OBJECT_PACK_ID_IDX@,
            i.layout_id == LAYOUT,
            i.fixed_key_size == Some(8u32),
            i.plus_one,
    {
        BinaryIndexId::new_fixed(OBJECT_PACK_ID_IDX, LAYOUT, 8, true)
    }

    pub fn encode_record(record: &BinaryObjectPackRecord) -> (r: StoreResult<Vec<u8>>)
        ensures
            r is Ok <==> LAYOUT == BINARY_DB_CONTENT_LAYOUT_ID,
            r matches Ok(bytes) ==> bytes@ == object_pack_record_bytes(*record),
            r matches Err(e) ==> e.kind == BinaryDbErrorKind::LayoutMismatch,
    {
        require_supported_content_layout(LAYOUT)?;
        let mut out: Vec<u8> = Vec::new();
        out.push(record.pack_meta);
        out.push(record.pack_format_kind);
        push_u16(&mut out, record.pack_hash_hi16);
        push_u32(&mut out, record.pack_hash_lo32);
        push_u32(&mut out, record.first_member_index);
        push_u32(&mut out, record.member_count);
        push_u64(&mut out, record.total_bytes);
        push_u64(&mut out, record.created_at_s);
        assert(out@ =~= object_pack_record_bytes(*record));
        Ok(out)
    }

    pub fn decode_record(raw: &[u8]) -> (r: StoreResult<BinaryObjectPackRecord>)
        ensures
            r is Ok <==> (LAYOUT == BINARY_DB_CONTENT_LAYOUT_ID && raw@.len() == 32),
            r matches Ok(rec) ==> object_pack_record_bytes(rec) == raw@,
            r matches Err(e) ==> (LAYOUT != BINARY_DB_CONTENT_LAYOUT_ID ==> e.kind
                == BinaryDbErrorKind::LayoutMismatch),
    {
        require_supported_content_layout(LAYOUT)?;
        require_raw_len(raw, OBJECT_PACK_RECORD_SIZE_USIZE, "BinaryObjectPackRecord")?;
        let rec = BinaryObjectPackRecord {
            pack_meta: raw[0],
            pack_format_kind: raw[1],
            pack_hash_hi16: read_u16(raw, 2),
            pack_hash_lo32: read_u32(raw, 4),
            first_member_index: read_u32(raw, 8),
            member_count: read_u32(raw, 12),
            total_bytes: read_u64(raw, 16),
            created_at_s: read_u64(raw, 24),
        };
        proof {
            lemma_le_lengths();
            assert(raw@.subrange(2, 4).len() == 2);
            assert(raw@.subrange(4, 8).len() == 4);
            assert(raw@.subrange(8, 12).len() == 4);
            assert(raw@.subrange(12, 16).len() == 4);
            assert(raw@.subrange(16, 24).len() == 8);
            assert(raw@.subrange(24, 32).len() == 8);
            assert(object_pack_record_bytes(rec) =~= raw@);
        }
        Ok(rec)
    }
}

pub struct BinaryObjectPackMemberCodec<const LAYOUT: u32>;

impl<const LAYOUT: u32> BinaryObjectPackMemberCodec<LAYOUT> {
    pub const RECORD_SIZE: u32 = 16;

    pub fn record_file() -> (f: BinaryFileId)
        ensures
            f.path@ == OBJECT_PACK_MEMBER_BIN@,
            f.layout_id == LAYOUT,
            f.record_size == OBJECT_PACK_MEMBER_RECORD_SIZE,
    {
        BinaryFileId::new(OBJECT_PACK_MEMBER_BIN, LAYOUT, OBJECT_PACK_MEMBER_RECORD_SIZE)
    }

    pub fn encode_record(record: &BinaryObjectPackMemberRecord) -> (r: StoreResult<Vec<u8>>)
        ensures
            r is Ok <==> LAYOUT == BINARY_DB_CONTENT_LAYOUT_ID,
            r matches Ok(bytes) ==> bytes@ == object_pack_member_record_bytes(*record),
            r matches Err(e) ==> e.kind == BinaryDbErrorKind::LayoutMismatch,
    {
        require_supported_content_layout(LAYOUT)?;
        let mut out: Vec<u8> = Vec::new();
        out.push(record.member_meta);
        out.push(record.delta_chain_depth);
        push_u16(&mut out, record.reserved0);
        push_u32(&mut out, record.pack_index);
        push_u32(&mut out, record.blob_index);
        push_u32(&mut out, record.base_blob_index_plus1);
        assert(out@ =~= object_pack_member_record_bytes(*record));
        Ok(out)
    }

    pub fn decode_record(raw: &[u8]) -> (r: StoreResult<BinaryObjectPackMemberRecord>)
        ensures
            r is Ok <==> (LAYOUT == BINARY_DB_CONTENT_LAYOUT_ID && raw@.len() == 16),
            r matches Ok(rec) ==> object_pack_member_record_bytes(rec) == raw@,
            r matches Err(e) ==> (LAYOUT != BINARY_DB_CONTENT_LAYOUT_ID ==> e.kind
                == BinaryDbErrorKind::LayoutMismatch),
    {
        require_supported_content_layout(LAYOUT)?;
        require_raw_len(raw, OBJECT_PACK_MEMBER_RECORD_SIZE_USIZE, "BinaryObjectPackMemberRecord")?;
        let rec = BinaryObjectPackMemberRecord {
            member_meta: raw[0],
            delta_chain_depth: raw[1],
            reserved0: read_u16(raw, 2),
            pack_index: read_u32(raw, 4),
            blob_index: read_u32(raw, 8),
            base_blob_index_plus1: read_u32(raw, 12),
        };
        proof {
            lemma_le_lengths();
            assert(raw@.subrange(2, 4).len() == 2);
            assert(raw@.subrange(4, 8).len() == 4);
            assert(raw@.subrange(8, 12).len() == 4);
            assert(raw@.subrange(12, 16).len() == 4);
            assert(object_pack_member_record_bytes(rec) =~= raw@);
        }
        Ok(rec)
    }
}

pub struct BinaryTreePackCodec<const LAYOUT: u32>;

impl<const LAYOUT: u32> BinaryTreePackCodec<LAYOUT> {
    pub const RECORD_SIZE: u32 = 32;

    pub fn record_file() -> (f: BinaryFileId)
        ensures
            f.path@ == TREE_PACK_BIN@,
            f.layout_id == LAYOUT,
            f.record_size == TREE_PACK_RECORD_SIZE,
    {
        BinaryFileId::new(TREE_PACK_BIN, LAYOUT, TREE_PACK_RECORD_SIZE)
    }

    pub fn id_index() -> (i: BinaryIndexId)
        ensures
            i.path@ == TREE_PACK_ID_IDX@,
            i.layout_id == LAYOUT,
            i.fixed_key_size == Some(8u32),
            i.plus_one,
    {
        BinaryIndexId::new_fixed(TREE_PACK_ID_IDX, LAYOUT, 8, true)
    }

    pub fn encode_record(record: &BinaryTreePackRecord) -> (r: StoreResult<Vec<u8>>)
        ensures
            r is Ok <==> LAYOUT == BINARY_DB_CONTENT_LAYOUT_ID,
            r matches Ok(bytes) ==> bytes@ == tree_pack_record_bytes(*record),
            r matches Err(e) ==> e.kind == BinaryDbErrorKind::LayoutMismatch,
    {
        require_supported_content_layout(LAYOUT)?;
        let mut out: Vec<u8> = Vec::new();
        out.push(record.pack_meta);
        out.push(record.pack_format_kind);
        push_u16(&mut out, record.pack_hash_hi16);
        push_u32(&mut out, record.pack_hash_lo32);
        push_u32(&mut out, record.first_tree_index);
        push_u32(&mut out, record.tree_count);
        push_u64(&mut out, record.total_bytes);
        push_u64(&mut out, record.created_at_s);
        assert(out@ =~= tree_pack_record_bytes(*record));
        Ok(out)
    }

    pub fn decode_record(raw: &[u8]) -> (r: StoreResult<BinaryTreePackRecord>)
        ensures
            r is Ok <==> (LAYOUT == BINARY_DB_CONTENT_LAYOUT_ID && raw@.len() == 32),
            r matches Ok(rec) ==> tree_pack_record_bytes(rec) == raw@,
            r matches Err(e) ==> (LAYOUT != BINARY_DB_CONTENT_LAYOUT_ID ==> e.kind
                == BinaryDbErrorKind::LayoutMismatch),
    {
        require_supported_content_layout(LAYOUT)?;
        require_raw_len(raw, TREE_PACK_RECORD_SIZE_USIZE, "BinaryTreePackRecord")?;
        let rec = BinaryTreePackRecord {
            pack_meta: raw[0],
            pack_format_kind: raw[1],
            pack_hash_hi16: read_u16(raw, 2),
            pack_hash_lo32: read_u32(raw, 4),
            first_tree_index: read_u32(raw, 8),
            tree_count: read_u32(raw, 12),
            total_bytes: read_u64(raw, 16),
            created_at_s: read_u64(raw, 24),
        };
        proof {
            lemma_le_lengths();
            assert(raw@.subrange(2, 4).len() == 2);
            assert(raw@.subrange(4, 8).len() == 4);
            assert(raw@.subrange(8, 12).len() == 4);
            assert(raw@.subrange(12, 16).len() == 4);
            assert(raw@.subrange(16, 24).len() == 8);
            assert(raw@.subrange(24, 32).len() == 8);
            assert(tree_pack_record_bytes(rec) =~= raw@);
        }
        Ok(rec)
    }
}

pub struct BinaryTreeCodec<const LAYOUT: u32>;

impl<const LAYOUT: u32> BinaryTreeCodec<LAYOUT> {
    pub const RECORD_SIZE: u32 = 20;

    pub fn record_file() -> (f: BinaryFileId)
        ensures
            f.path@ == TREE_BIN@,
            f.layout_id == LAYOUT,
            f.record_size == TREE_RECORD_SIZE,
    {
        BinaryFileId::new(TREE_BIN, LAYOUT, TREE_RECORD_SIZE)
    }

    pub fn id_index() -> (i: BinaryIndexId)
        ensures
            i.path@ == TREE_ID_IDX@,
            i.layout_id == LAYOUT,
            i.fixed_key_size == Some(10u32),
            i.plus_one,
    {
        BinaryIndexId::new_fixed(TREE_ID_IDX, LAYOUT, 10, true)
    }

    pub fn encode_record(record: &BinaryTreeRecord) -> (r: StoreResult<Vec<u8>>)
        ensures
            r is Ok <==> LAYOUT == BINARY_DB_CONTENT_LAYOUT_ID,
            r matches Ok(bytes) ==> bytes@ == tree_record_bytes(*record),
            r matches Err(e) ==> e.kind == BinaryDbErrorKind::LayoutMismatch,
    {
        require_supported_content_layout(LAYOUT)?;
        let mut out: Vec<u8> = Vec::new();
        out.push(record.tree_meta);
        out.push(record.reserved0);
        push_u32(&mut out, record.pack_entry_ordinal);
        push_u32(&mut out, record.entry_count);
        push_slice(&mut out, &record.tree_hash80);
        assert(out@ =~= tree_record_bytes(*record));
        Ok(out)
    }

    pub fn decode_record(raw: &[u8]) -> (r: StoreResult<BinaryTreeRecord>)
        ensures
            r is Ok <==> (LAYOUT == BINARY_DB_CONTENT_LAYOUT_ID && raw@.len() == 20),
            r matches Ok(rec) ==> tree_record_bytes(rec) == raw@,
            r matches Err(e) ==> (LAYOUT != BINARY_DB_CONTENT_LAYOUT_ID ==> e.kind
                == BinaryDbErrorKind::LayoutMismatch),
    {
        require_supported_content_layout(LAYOUT)?;
        require_raw_len(raw, TREE_RECORD_SIZE_USIZE, "BinaryTreeRecord")?;
        let rec = BinaryTreeRecord {
            tree_meta: raw[0],
            reserved0: raw[1],
            pack_entry_ordinal: read_u32(raw, 2),
            entry_count: read_u32(raw, 6),
            tree_hash80: read_array_10(raw, 10),
        };
        proof {
            lemma_le_lengths();
            assert(raw@.subrange(2, 6).len() == 4);
            assert(raw@.subrange(6, 10).len() == 4);
            assert(tree_record_bytes(rec) =~= raw@);
        }
        Ok(rec)
    }
}

/// Distinct object pack records encode to distinct bytes.
pub proof fn lemma_object_pack_record_bytes_injective(
    a: BinaryObjectPackRecord,
    b: BinaryObjectPackRecord,
)
    requires
        object_pack_record_bytes(a) == object_pack_record_bytes(b),
    ensures
        a == b,
{
    lemma_le_lengths();
    let x = object_pack_record_bytes(a);
    let y = object_pack_record_bytes(b);
    assert(x[0] == a.pack_meta && y[0] == b.pack_meta);
    assert(x[1] == a.pack_format_kind && y[1] == b.pack_format_kind);
    assert(x.subrange(2, 4) =~= le16(a.pack_hash_hi16) && y.subrange(2, 4) =~= le16(b.pack_hash_hi16));
    assert(x.subrange(4, 8) =~= le32(a.pack_hash_lo32) && y.subrange(4, 8) =~= le32(b.pack_hash_lo32));
    assert(x.subrange(8, 12) =~= le32(a.first_member_index) && y.subrange(8, 12) =~= le32(
        b.first_member_index,
    ));
    assert(x.subrange(12, 16) =~= le32(a.member_count) && y.subrange(12, 16) =~= le32(
        b.member_count,
    ));
    assert(x.subrange(16, 24) =~= le64(a.total_bytes) && y.subrange(16, 24) =~= le64(
        b.total_bytes,
    ));
    assert(x.subrange(24, 32) =~= le64(a.created_at_s) && y.subrange(24, 32) =~= le64(
        b.created_at_s,
    ));
}

/// Distinct object pack member records encode to distinct bytes.
pub proof fn lemma_object_pack_member_record_bytes_injective(
    a: BinaryObjectPackMemberRecord,
    b: BinaryObjectPackMemberRecord,
)
    requires
        object_pack_member_record_bytes(a) == object_pack_member_record_bytes(b),
    ensures
        a == b,
{
    lemma_le_lengths();
    let x = object_pack_member_record_bytes(a);
    let y = object_pack_member_record_bytes(b);
    assert(x[0] == a.member_meta && y[0] == b.member_meta);
    assert(x[1] == a.delta_chain_depth && y[1] == b.delta_chain_depth);
    assert(x.subrange(2, 4) =~= le16(a.reserved0) && y.subrange(2, 4) =~= le16(b.reserved0));
    assert(x.subrange(4, 8) =~= le32(a.pack_index) && y.subrange(4, 8) =~= le32(b.pack_index));
    assert(x.subrange(8, 12) =~= le32(a.blob_index) && y.subrange(8, 12) =~= le32(b.blob_index));
    assert(x.subrange(12, 16) =~= le32(a.base_blob_index_plus1) && y.subrange(12, 16) =~= le32(
        b.base_blob_index_plus1,
    ));
}

/// Distinct tree pack records encode to distinct bytes.
pub proof fn lemma_tree_pack_record_bytes_injective(a: BinaryTreePackRecord, b: BinaryTreePackRecord)
    requires
        tree_pack_record_bytes(a) == tree_pack_record_bytes(b),
    ensures
        a == b,
{
    lemma_le_lengths();
    let x = tree_pack_record_bytes(a);
    let y = tree_pack_record_bytes(b);
    assert(x[0] == a.pack_meta && y[0] == b.pack_meta);
    assert(x[1] == a.pack_format_kind && y[1] == b.pack_format_kind);
    assert(x.subrange(2, 4) =~= le16(a.pack_hash_hi16) && y.subrange(2, 4) =~= le16(b.pack_hash_hi16));
    assert(x.subrange(4, 8) =~= le32(a.pack_hash_lo32) && y.subrange(4, 8) =~= le32(b.pack_hash_lo32));
    assert(x.subrange(8, 12) =~= le32(a.first_tree_index) && y.subrange(8, 12) =~= le32(
        b.first_tree_index,
    ));
    assert(x.subrange(12, 16) =~= le32(a.tree_count) && y.subrange(12, 16) =~= le32(b.tree_count));
    assert(x.subrange(16, 24) =~= le64(a.total_bytes) && y.subrange(16, 24) =~= le64(
        b.total_bytes,
    ));
    assert(x.subrange(24, 32) =~= le64(a.created_at_s) && y.subrange(24, 32) =~= le64(
        b.created_at_s,
    ));
}

/// Distinct tree records encode to distinct bytes.
pub proof fn lemma_tree_record_bytes_injective(a: BinaryTreeRecord, b: BinaryTreeRecord)
    requires
        tree_record_bytes(a) == tree_record_bytes(b),
    ensures
        a == b,
{
    lemma_le_lengths();
    let x = tree_record_bytes(a);
    let y = tree_record_bytes(b);
    assert(x[0] == a.tree_meta && y[0] == b.tree_meta);
    assert(x[1] == a.reserved0 && y[1] == b.reserved0);
    assert(x.subrange(2, 6) =~= le32(a.pack_entry_ordinal) && y.subrange(2, 6) =~= le32(
        b.pack_entry_ordinal,
    ));
    assert(x.subrange(6, 10) =~= le32(a.entry_count) && y.subrange(6, 10) =~= le32(b.entry_count));
    assert(x.subrange(10, 20) =~= a.tree_hash80@ && y.subrange(10, 20) =~= b.tree_hash80@);
    assert(a.tree_hash80 =~= b.tree_hash80);
}

} // verus!

verus! {

// ----- laws ---------------------------------------------------------------

/// A blob record survives encoding then decoding: its bytes have the record
/// size, and the only record with those bytes is the record itself.
pub proof fn law_blob_record_roundtrip(r: BinaryBlobRecord)
    ensures
        blob_record_bytes(r).len() == BLOB_RECORD_SIZE,
        forall|rec: BinaryBlobRecord| blob_record_bytes(rec) == blob_record_bytes(r) ==> rec == r,
{
    lemma_le_lengths();
    assert forall|rec: BinaryBlobRecord| blob_record_bytes(rec) == blob_record_bytes(r) implies rec
        == r by {
        lemma_blob_record_bytes_injective(rec, r);
    }
}

/// A valid snapshot record survives encoding then decoding.
pub proof fn law_snapshot_record_roundtrip(r: BinarySnapshotRecord)
    ensures
        snapshot_record_bytes(r).len() == SNAPSHOT_RECORD_SIZE,
        forall|rec: BinarySnapshotRecord|
            snapshot_record_bytes(rec) == snapshot_record_bytes(r) ==> rec == r,
{
    lemma_le_lengths();
    assert forall|rec: BinarySnapshotRecord|
        snapshot_record_bytes(rec) == snapshot_record_bytes(r) implies rec == r by {
        lemma_snapshot_record_bytes_injective(rec, r);
    }
}

/// An object pack record survives encoding then decoding.
pub proof fn law_object_pack_record_roundtrip(r: BinaryObjectPackRecord)
    ensures
        object_pack_record_bytes(r).len() == OBJECT_PACK_RECORD_SIZE,
        forall|rec: BinaryObjectPackRecord|
            object_pack_record_bytes(rec) == object_pack_record_bytes(r) ==> rec == r,
{
    lemma_le_lengths();
    assert forall|rec: BinaryObjectPackRecord|
        object_pack_record_bytes(rec) == object_pack_record_bytes(r) implies rec == r by {
        lemma_object_pack_record_bytes_injective(rec, r);
    }
}

/// An object pack member record survives encoding then decoding.
pub proof fn law_object_pack_member_record_roundtrip(r: BinaryObjectPackMemberRecord)
    ensures
        object_pack_member_record_bytes(r).len() == OBJECT_PACK_MEMBER_RECORD_SIZE,
        forall|rec: BinaryObjectPackMemberRecord|
            object_pack_member_record_bytes(rec) == object_pack_member_record_bytes(r) ==> rec
                == r,
{
    lemma_le_lengths();
    assert forall|rec: BinaryObjectPackMemberRecord|
        object_pack_member_record_bytes(rec) == object_pack_member_record_bytes(r) implies rec
        == r by {
        lemma_object_pack_member_record_bytes_injective(rec, r);
    }
}

/// A tree pack record survives encoding then decoding.
pub proof fn law_tree_pack_record_roundtrip(r: BinaryTreePackRecord)
    ensures
        tree_pack_record_bytes(r).len() == TREE_PACK_RECORD_SIZE,
        forall|rec: BinaryTreePackRecord|
            tree_pack_record_bytes(rec) == tree_pack_record_bytes(r) ==> rec == r,
{
    lemma_le_lengths();
    assert forall|rec: BinaryTreePackRecord|
        tree_pack_record_bytes(rec) == tree_pack_record_bytes(r) implies rec == r by {
        lemma_tree_pack_record_bytes_injective(rec, r);
    }
}

/// A tree record survives encoding then decoding.
pub proof fn law_tree_record_roundtrip(r: BinaryTreeRecord)
    ensures
        tree_record_bytes(r).len() == TREE_RECORD_SIZE,
        forall|rec: BinaryTreeRecord| tree_record_bytes(rec) == tree_record_bytes(r) ==> rec == r,
{
    lemma_le_lengths();
    assert forall|rec: BinaryTreeRecord| tree_record_bytes(rec) == tree_record_bytes(r) implies rec
        == r by {
        lemma_tree_record_bytes_injective(rec, r);
    }
}

proof fn lemma_parent_extension_words(indices: Seq<u32>)
    ensures
        parent_extension_words(indices).len() == 4 * indices.len(),
        forall|i: int|
            0 <= i < indices.len() ==> #[trigger] parent_extension_words(indices).subrange(
                4 * i,
                4 * i + 4,
            ) == le32((indices[i] + 1) as u32),
    decreases indices.len(),
{
    lemma_le_lengths();
    if indices.len() > 0 {
        let init = indices.drop_last();
        lemma_parent_extension_words(init);
        let w = parent_extension_words(indices);
        let wi = parent_extension_words(init);
        assert forall|i: int| 0 <= i < indices.len() implies #[trigger] w.subrange(4 * i, 4 * i + 4)
            == le32((indices[i] + 1) as u32) by {
            if i < indices.len() - 1 {
                assert(w.subrange(4 * i, 4 * i + 4) =~= wi.subrange(4 * i, 4 * i + 4));
                assert(indices[i] == init[i]);
            } else {
                assert(w.subrange(4 * i, 4 * i + 4) =~= le32((indices.last() + 1) as u32));
            }
        }
    }
}

/// A well-formed snapshot payload survives encoding then decoding: decoding
/// the encoded bytes with the record flags that `append_snapshot` sets gives
/// back its parents, line name and message (an empty message is stored as
/// none).
pub proof fn law_snapshot_payload_roundtrip(p: BinarySnapshotPayload, has_line: bool)
    requires
        payload_encodable(p),
        has_line || p.line_name@.len() == 0,
        p.message matches Some(m) ==> m@.len() > 0,
    ensures
        spec_decode_payload(
            payload_bytes(p),
            has_line,
            p.additional_parent_snapshot_indices@.len() > 0,
        ) is Some,
        forall|q: BinarySnapshotPayload|
            decoded_payload_matches(
                q,
                spec_decode_payload(
                    payload_bytes(p),
                    has_line,
                    p.additional_parent_snapshot_indices@.len() > 0,
                )->0,
            ) ==> q.additional_parent_snapshot_indices@ == p.additional_parent_snapshot_indices@
                && q.line_name@ == p.line_name@ && message_chars(q) == message_chars(p) && (
            q.message is None <==> p.message is None),
{
    lemma_le_lengths();
    broadcast use vstd::utf8::encode_utf8_valid_utf8, vstd::utf8::encode_utf8_decode_utf8;

    let indices = p.additional_parent_snapshot_indices@;
    let n = indices.len();
    let mc = message_chars(p);
    let msg = encode_utf8(mc);
    let line = encode_utf8(p.line_name@);
    let raw = payload_bytes(p);
    let ext = parent_extension_bytes(indices);
    let tail = le16(msg.len() as u16) + msg + line;
    assert(raw =~= ext + tail);
    lemma_parent_extension_words(indices);
    let start: int = if n > 0 {
        3 + 4 * (n as int)
    } else {
        0
    };
    assert(ext.len() == start);
    if n > 0 {
        assert(raw[0] == SNAPSHOT_PARENT_EXTENSION_VERSION);
        assert(raw.subrange(1, 3) =~= le16(n as u16));
        assert((n as u16) as int == n);
        let words = parent_extension_words(indices);
        assert forall|i: int| 0 <= i < n implies #[trigger] plus_one_word(raw, i) == (indices[i]
            + 1) as u32 by {
            assert(raw.subrange(3 + 4 * i, 7 + 4 * i) =~= words.subrange(4 * i, 4 * i + 4));
            assert(indices[i] < u32::MAX);
        }
        assert(!exists|i: int| 0 <= i < n && #[trigger] plus_one_word(raw, i) == 0);
        let decoded = spec_decode_parent_extension(raw);
        assert(decoded is Some);
        assert((decoded->0).0 =~= indices);
    }
    let rest = raw.subrange(start, raw.len() as int);
    assert(rest =~= tail);
    assert(rest.subrange(0, 2) =~= le16(msg.len() as u16));
    assert((msg.len() as u16) as int == msg.len());
    assert(rest.subrange(2, 2 + msg.len() as int) =~= msg);
    assert(rest.subrange(2 + msg.len() as int, rest.len() as int) =~= line);
    if mc.len() > 0 {
        assert(msg.len() > 0) by {
            vstd::utf8::encode_utf8_first_scalar(mc);
        }
    }
    if p.line_name@.len() == 0 {
        assert(line =~= Seq::<u8>::empty());
    }
}

} // verus!
