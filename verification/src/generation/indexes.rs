//! The content identity indexes: for every record of a content table, its
//! fixed-size identity key followed by the record's plus-one ordinal.
//! Rebuilding derives the index bytes from the records; validation checks
//! an index against them.

use vstd::bytes::*;
use vstd::prelude::*;

use crate::digest::{sha256_digest, spec_sha256};
use crate::generation::manifest::GenerationFileManifest;
use crate::ids::{
    blob_id_from_sha256, blob_id_index_key, law_blob_id_key_roundtrip, law_hash48_index_keys,
    law_tree_id_key_roundtrip, object_pack_id_from_hash48, object_pack_id_index_key,
    snapshot_id_from_hash48, snapshot_id_index_key, tree_id_from_hash80, tree_id_index_key,
    tree_pack_id_from_hash48, tree_pack_id_index_key,
};
use crate::schema::codec::{
    blob_record_bytes, le32, le64, lemma_blob_record_bytes_injective,
    lemma_object_pack_record_bytes_injective, lemma_snapshot_record_bytes_injective,
    lemma_tree_pack_record_bytes_injective, lemma_tree_record_bytes_injective,
    lemma_le_lengths, object_pack_record_bytes, push_slice, snapshot_record_bytes,
    snapshot_record_valid, tree_pack_record_bytes, tree_record_bytes, BinaryBlobCodec,
    BinaryObjectPackCodec, BinarySnapshotCodec, BinaryTreeCodec, BinaryTreePackCodec,
};
use crate::schema::records::{
    pack_hash48_of, spec_pack_hash48, BinaryBlobRecord, BinaryObjectPackRecord,
    BinarySnapshotRecord, BinaryTreePackRecord, BinaryTreeRecord,
};
use crate::text::{cat2, cat3, str_eq};

verus! {

/// The content tables that carry an identity index.
#[derive(Clone, Copy, Debug, PartialEq, Eq)]
pub enum ContentIdentityKind {
    Blob,
    Snapshot,
    ObjectPack,
    Tree,
    TreePack,
}

/// A content table and its identity index.
#[derive(Clone, Copy, Debug)]
pub struct ContentIdentityIndexPlan {
    pub record_name: &'static str,
    pub index_name: &'static str,
    pub record_size: u32,
    pub key_size: usize,
    pub kind: ContentIdentityKind,
}

pub open spec fn plan_kind_row(kind: ContentIdentityKind) -> (Seq<char>, Seq<char>, u32, usize) {
    match kind {
        ContentIdentityKind::Blob => ("blob.bin"@, "blob_id.idx"@, 64u32, 10usize),
        ContentIdentityKind::Snapshot => ("snapshot.bin"@, "snapshot_id.idx"@, 88u32, 8usize),
        ContentIdentityKind::ObjectPack => ("object_pack.bin"@, "object_pack_id.idx"@, 32u32, 8usize),
        ContentIdentityKind::Tree => ("tree.bin"@, "tree_id.idx"@, 20u32, 10usize),
        ContentIdentityKind::TreePack => ("tree_pack.bin"@, "tree_pack_id.idx"@, 32u32, 8usize),
    }
}

/// The plan is the declared one for its table.
pub open spec fn plan_ok(p: ContentIdentityIndexPlan) -> bool {
    (p.record_name@, p.index_name@, p.record_size, p.key_size) == plan_kind_row(p.kind)
}

pub open spec fn plan_kinds() -> Seq<ContentIdentityKind> {
    seq![
        ContentIdentityKind::Blob,
        ContentIdentityKind::Snapshot,
        ContentIdentityKind::ObjectPack,
        ContentIdentityKind::Tree,
        ContentIdentityKind::TreePack,
    ]
}

fn plan_of(
    kind: ContentIdentityKind,
    record_name: &'static str,
    index_name: &'static str,
    record_size: u32,
    key_size: usize,
) -> (p: ContentIdentityIndexPlan)
    requires
        (record_name@, index_name@, record_size, key_size) == plan_kind_row(kind),
    ensures
        plan_ok(p),
        p.kind == kind,
{
    ContentIdentityIndexPlan { record_name, index_name, record_size, key_size, kind }
}

/// Every identity index, in the order they are rebuilt and validated.
pub fn content_identity_index_plans() -> (plans: Vec<ContentIdentityIndexPlan>)
    ensures
        plans@.len() == plan_kinds().len(),
        forall|i: int|
            0 <= i < plans@.len() ==> plan_ok(#[trigger] plans@[i]) && plans@[i].kind == plan_kinds()[i],
{
    let mut plans: Vec<ContentIdentityIndexPlan> = Vec::new();
    plans.push(plan_of(ContentIdentityKind::Blob, "blob.bin", "blob_id.idx", 64, 10));
    plans.push(plan_of(ContentIdentityKind::Snapshot, "snapshot.bin", "snapshot_id.idx", 88, 8));
    plans.push(
        plan_of(ContentIdentityKind::ObjectPack, "object_pack.bin", "object_pack_id.idx", 32, 8),
    );
    plans.push(plan_of(ContentIdentityKind::Tree, "tree.bin", "tree_id.idx", 20, 10));
    plans.push(plan_of(ContentIdentityKind::TreePack, "tree_pack.bin", "tree_pack_id.idx", 32, 8));
    plans
}

/// Whether `name` is the file name of an identity index.
pub fn is_content_identity_index(name: &str) -> (r: bool)
    ensures
        r == exists|i: int| 0 <= i < plan_kinds().len() && (#[trigger] plan_kind_row(plan_kinds()[i])).1
            == name@,
{
    let plans = content_identity_index_plans();
    let mut i: usize = 0;
    while i < plans.len()
        invariant
            plans@.len() == plan_kinds().len(),
            forall|j: int|
                0 <= j < plans@.len() ==> plan_ok(#[trigger] plans@[j]) && plans@[j].kind
                    == plan_kinds()[j],
            i <= plans@.len(),
            forall|j: int| 0 <= j < i ==> (#[trigger] plan_kind_row(plan_kinds()[j])).1 != name@,
        decreases plans@.len() - i,
    {
        assert(plan_ok(plans@[i as int]));
        if str_eq(plans[i].index_name, name) {
            return true;
        }
        i = i + 1;
    }
    false
}

// ----- identity keys ----------------------------------------------------------

/// The identity key of one raw record: the first ten digest bytes of a
/// blob, the tree hash of a tree, and the little-endian 48-bit hash of a
/// snapshot or pack. `None` when the bytes are not a record of the table.
pub open spec fn spec_identity_key(kind: ContentIdentityKind, raw: Seq<u8>) -> Option<Seq<u8>> {
    match kind {
        ContentIdentityKind::Blob => if raw.len() == 64 {
            Some((choose|r: BinaryBlobRecord| blob_record_bytes(r) == raw).sha256@.subrange(0, 10))
        } else {
            None
        },
        ContentIdentityKind::Snapshot => if raw.len() == 88 && exists|r: BinarySnapshotRecord|
            snapshot_record_bytes(r) == raw && snapshot_record_valid(r) {
            Some(
                le64(
                    (choose|r: BinarySnapshotRecord|
                        snapshot_record_bytes(r) == raw && snapshot_record_valid(r)).snapshot_hash48,
                ),
            )
        } else {
            None
        },
        ContentIdentityKind::ObjectPack => if raw.len() == 32 {
            let r = choose|r: BinaryObjectPackRecord| object_pack_record_bytes(r) == raw;
            Some(le64(spec_pack_hash48(r.pack_hash_hi16, r.pack_hash_lo32)))
        } else {
            None
        },
        ContentIdentityKind::Tree => if raw.len() == 20 {
            Some((choose|r: BinaryTreeRecord| tree_record_bytes(r) == raw).tree_hash80@)
        } else {
            None
        },
        ContentIdentityKind::TreePack => if raw.len() == 32 {
            let r = choose|r: BinaryTreePackRecord| tree_pack_record_bytes(r) == raw;
            Some(le64(spec_pack_hash48(r.pack_hash_hi16, r.pack_hash_lo32)))
        } else {
            None
        },
    }
}

/// The identity key of a blob record is the index key a reader derives
/// from the blob's id, and that of a tree record the key derived from the
/// tree's id: an identity index maps each id to the records that carry it.
pub proof fn law_identity_keys_are_the_id_keys(blob: BinaryBlobRecord, tree: BinaryTreeRecord)
    ensures
        spec_identity_key(ContentIdentityKind::Blob, blob_record_bytes(blob))
            == crate::ids::spec_parse_prefixed_hex(crate::ids::spec_blob_id(blob.sha256@), "BLB-"@, 10),
        spec_identity_key(ContentIdentityKind::Tree, tree_record_bytes(tree))
            == crate::ids::spec_parse_prefixed_hex(crate::ids::spec_tree_id(tree.tree_hash80@), "TRE-"@, 10),
{
    lemma_le_lengths();
    let b = choose|r: BinaryBlobRecord| blob_record_bytes(r) == blob_record_bytes(blob);
    lemma_blob_record_bytes_injective(b, blob);
    law_blob_id_key_roundtrip(blob.sha256@);
    let t = choose|r: BinaryTreeRecord| tree_record_bytes(r) == tree_record_bytes(tree);
    lemma_tree_record_bytes_injective(t, tree);
    law_tree_id_key_roundtrip(tree.tree_hash80@);
}

fn bytes_vec(bytes: &[u8]) -> (v: Vec<u8>)
    ensures
        v@ == bytes@,
{
    let mut v: Vec<u8> = Vec::new();
    push_slice(&mut v, bytes);
    v
}

/// The identity key of one raw record of the table `kind`.
pub fn content_identity_key(kind: ContentIdentityKind, raw: &[u8]) -> (r: Result<Vec<u8>, String>)
    ensures
        r is Ok <==> spec_identity_key(kind, raw@) is Some,
        r matches Ok(k) ==> k@ == spec_identity_key(kind, raw@)->0,
{
    match kind {
        ContentIdentityKind::Blob => {
            let record = match BinaryBlobCodec::<1>::decode_record(raw) {
                Ok(record) => record,
                Err(e) => {
                    return Err(cat2("cannot decode Blob while rebuilding its index: ", e.message.as_str()));
                },
            };
            proof {
                let c = choose|r: BinaryBlobRecord| blob_record_bytes(r) == raw@;
                lemma_blob_record_bytes_injective(c, record);
                law_blob_id_key_roundtrip(record.sha256@);
            }
            let id = blob_id_from_sha256(&record.sha256);
            match blob_id_index_key(id.as_str()) {
                Ok(key) => Ok(bytes_vec(&key)),
                Err(e) => Err(cat2("cannot derive Blob index key: ", e.message.as_str())),
            }
        },
        ContentIdentityKind::Snapshot => {
            let record = match BinarySnapshotCodec::<1>::decode_record(raw) {
                Ok(record) => record,
                Err(e) => {
                    return Err(
                        cat2("cannot decode Snapshot while rebuilding its index: ", e.message.as_str()),
                    );
                },
            };
            proof {
                let c = choose|r: BinarySnapshotRecord|
                    snapshot_record_bytes(r) == raw@ && snapshot_record_valid(r);
                lemma_snapshot_record_bytes_injective(c, record);
                law_hash48_index_keys(record.snapshot_hash48);
            }
            let id = snapshot_id_from_hash48(record.snapshot_hash48);
            match snapshot_id_index_key(id.as_str()) {
                Ok(key) => Ok(bytes_vec(&key)),
                Err(e) => Err(cat2("cannot derive Snapshot index key: ", e.message.as_str())),
            }
        },
        ContentIdentityKind::ObjectPack => {
            let record = match BinaryObjectPackCodec::<1>::decode_record(raw) {
                Ok(record) => record,
                Err(e) => {
                    return Err(
                        cat2("cannot decode object pack while rebuilding its index: ", e.message.as_str()),
                    );
                },
            };
            let hash48 = pack_hash48_of(record.pack_hash_hi16, record.pack_hash_lo32);
            proof {
                let c = choose|r: BinaryObjectPackRecord| object_pack_record_bytes(r) == raw@;
                lemma_object_pack_record_bytes_injective(c, record);
                law_hash48_index_keys(hash48);
            }
            let id = object_pack_id_from_hash48(hash48);
            match object_pack_id_index_key(id.as_str()) {
                Ok(key) => Ok(bytes_vec(&key)),
                Err(e) => Err(cat2("cannot derive object-pack index key: ", e.message.as_str())),
            }
        },
        ContentIdentityKind::Tree => {
            let record = match BinaryTreeCodec::<1>::decode_record(raw) {
                Ok(record) => record,
                Err(e) => {
                    return Err(cat2("cannot decode Tree while rebuilding its index: ", e.message.as_str()));
                },
            };
            proof {
                let c = choose|r: BinaryTreeRecord| tree_record_bytes(r) == raw@;
                lemma_tree_record_bytes_injective(c, record);
                law_tree_id_key_roundtrip(record.tree_hash80@);
            }
            let id = tree_id_from_hash80(&record.tree_hash80);
            match tree_id_index_key(id.as_str()) {
                Ok(key) => Ok(bytes_vec(&key)),
                Err(e) => Err(cat2("cannot derive Tree index key: ", e.message.as_str())),
            }
        },
        ContentIdentityKind::TreePack => {
            let record = match BinaryTreePackCodec::<1>::decode_record(raw) {
                Ok(record) => record,
                Err(e) => {
                    return Err(
                        cat2("cannot decode tree pack while rebuilding its index: ", e.message.as_str()),
                    );
                },
            };
            let hash48 = pack_hash48_of(record.pack_hash_hi16, record.pack_hash_lo32);
            proof {
                let c = choose|r: BinaryTreePackRecord| tree_pack_record_bytes(r) == raw@;
                lemma_tree_pack_record_bytes_injective(c, record);
                law_hash48_index_keys(hash48);
            }
            let id = tree_pack_id_from_hash48(hash48);
            match tree_pack_id_index_key(id.as_str()) {
                Ok(key) => Ok(bytes_vec(&key)),
                Err(e) => Err(cat2("cannot derive tree-pack index key: ", e.message.as_str())),
            }
        },
    }
}

// ----- index files ------------------------------------------------------------

/// Length of the identity key of a table.
pub open spec fn key_len(kind: ContentIdentityKind) -> nat {
    match kind {
        ContentIdentityKind::Blob | ContentIdentityKind::Tree => 10,
        _ => 8,
    }
}

proof fn lemma_key_len(kind: ContentIdentityKind, raw: Seq<u8>)
    requires
        spec_identity_key(kind, raw) is Some,
    ensures
        spec_identity_key(kind, raw)->0.len() == key_len(kind),
{
    lemma_le_lengths();
}

/// Record `i` of a table body of `size`-byte records.
pub open spec fn record_at(body: Seq<u8>, size: nat, i: int) -> Seq<u8> {
    body.subrange(i * size, (i + 1) * size)
}

/// The index entries of the first `n` records: each record's key followed
/// by its little-endian plus-one ordinal; `None` when a key cannot be
/// derived.
pub open spec fn spec_index_entries(kind: ContentIdentityKind, body: Seq<u8>, size: nat, n: nat) -> Option<
    Seq<u8>,
>
    decreases n,
{
    if n == 0 {
        Some(Seq::empty())
    } else {
        match spec_index_entries(kind, body, size, (n - 1) as nat) {
            None => None,
            Some(prev) => match spec_identity_key(kind, record_at(body, size, n - 1)) {
                None => None,
                Some(key) => Some(prev + key + le32(n as u32)),
            },
        }
    }
}

proof fn lemma_entries_shape(kind: ContentIdentityKind, body: Seq<u8>, size: nat, k: nat, m: nat)
    requires
        k <= m,
        spec_index_entries(kind, body, size, m) is Some,
    ensures
        spec_index_entries(kind, body, size, k) is Some,
        spec_index_entries(kind, body, size, k)->0.len() == k * (key_len(kind) + 4),
        spec_index_entries(kind, body, size, m)->0.subrange(
            0,
            (k * (key_len(kind) + 4)) as int,
        ) == spec_index_entries(kind, body, size, k)->0,
    decreases m,
{
    lemma_le_lengths();
    if m > 0 {
        let prev = spec_index_entries(kind, body, size, (m - 1) as nat);
        assert(prev is Some);
        lemma_key_len(kind, record_at(body, size, m - 1));
        if k < m {
            lemma_entries_shape(kind, body, size, k, (m - 1) as nat);
            lemma_entries_shape(kind, body, size, (m - 1) as nat, (m - 1) as nat);
            let e = spec_index_entries(kind, body, size, m)->0;
            let w = key_len(kind) + 4;
            assert(k * w <= (m - 1) * w) by (nonlinear_arith)
                requires
                    k <= m - 1,
            ;
            assert(e.subrange(0, (k * w) as int) =~= prev->0.subrange(0, (k * w) as int));
        } else {
            lemma_entries_shape(kind, body, size, (m - 1) as nat, (m - 1) as nat);
            let e = spec_index_entries(kind, body, size, m)->0;
            assert((m - 1) * (key_len(kind) + 4) + key_len(kind) + 4 == m * (key_len(kind) + 4))
                by (nonlinear_arith);
            assert(e.subrange(0, (m * (key_len(kind) + 4)) as int) =~= e);
        }
    } else {
        assert(spec_index_entries(kind, body, size, m)->0.subrange(0, 0) =~= Seq::<u8>::empty());
    }
}

proof fn lemma_entry_at(kind: ContentIdentityKind, body: Seq<u8>, size: nat, i: nat, count: nat)
    requires
        i < count,
        spec_index_entries(kind, body, size, count) is Some,
    ensures
        spec_identity_key(kind, record_at(body, size, i as int)) is Some,
        ({
            let full = spec_index_entries(kind, body, size, count)->0;
            let w = key_len(kind) + 4;
            let key = spec_identity_key(kind, record_at(body, size, i as int))->0;
            &&& full.len() == count * w
            &&& full.subrange((i * w) as int, (i * w + key_len(kind)) as int) == key
            &&& full.subrange((i * w + key_len(kind)) as int, ((i + 1) * w) as int) == le32((i + 1) as u32)
        }),
{
    let w = key_len(kind) + 4;
    lemma_le_lengths();
    lemma_entries_shape(kind, body, size, count, count);
    lemma_entries_shape(kind, body, size, i + 1, count);
    lemma_entries_shape(kind, body, size, i, i);
    let full = spec_index_entries(kind, body, size, count)->0;
    let prefix = spec_index_entries(kind, body, size, i + 1)->0;
    let prev = spec_index_entries(kind, body, size, i)->0;
    let key = spec_identity_key(kind, record_at(body, size, i as int))->0;
    lemma_key_len(kind, record_at(body, size, i as int));
    assert(prefix == prev + key + le32((i + 1) as u32));
    assert((i + 1) * w == i * w + w) by (nonlinear_arith);
    assert((i + 1) * w <= count * w) by (nonlinear_arith)
        requires
            i + 1 <= count,
    ;
    assert(full.subrange(0, ((i + 1) * w) as int) == prefix);
    assert(prefix.len() == (i + 1) * w);
    assert(full.subrange((i * w) as int, (i * w + key_len(kind)) as int) =~= prefix.subrange(
        (i * w) as int,
        (i * w + key_len(kind)) as int,
    ));
    assert(full.subrange((i * w + key_len(kind)) as int, ((i + 1) * w) as int) =~= prefix.subrange(
        (i * w + key_len(kind)) as int,
        ((i + 1) * w) as int,
    ));
}

proof fn lemma_entries_none_extends(kind: ContentIdentityKind, body: Seq<u8>, size: nat, k: nat, m: nat)
    requires
        k <= m,
        spec_index_entries(kind, body, size, k) is None,
    ensures
        spec_index_entries(kind, body, size, m) is None,
    decreases m - k,
{
    if k < m {
        lemma_entries_none_extends(kind, body, size, k + 1, m);
    }
}

fn le32_vec(v: u32) -> (b: Vec<u8>)
    ensures
        b@ == le32(v),
{
    u32_to_le_bytes(v)
}

/// The index entries of the `count` records of a table body.
pub fn content_identity_index_entries(
    kind: ContentIdentityKind,
    body: &[u8],
    record_size: usize,
    count: u32,
) -> (r: Result<Vec<u8>, String>)
    requires
        body@.len() == count * record_size,
    ensures
        r is Ok <==> spec_index_entries(kind, body@, record_size as nat, count as nat) is Some,
        r matches Ok(e) ==> e@ == spec_index_entries(kind, body@, record_size as nat, count as nat)->0,
{
    let mut out: Vec<u8> = Vec::new();
    let mut i: u32 = 0;
    while i < count
        invariant
            body@.len() == count * record_size,
            i <= count,
            spec_index_entries(kind, body@, record_size as nat, i as nat) == Some(out@),
        decreases count - i,
    {
        let ghost n = (i + 1) as nat;
        assert((i + 1) * record_size <= count * record_size) by (nonlinear_arith)
            requires
                i + 1 <= count,
        ;
        assert(i * record_size + record_size == (i + 1) * record_size) by (nonlinear_arith);
        assert(i * record_size + record_size <= body.len());
        let start = i as usize * record_size;
        let raw = vstd::slice::slice_subrange(body, start, start + record_size);
        assert(raw@ == record_at(body@, record_size as nat, i as int));
        let key = match content_identity_key(kind, raw) {
            Ok(key) => key,
            Err(e) => {
                proof {
                    lemma_entries_none_extends(kind, body@, record_size as nat, n, count as nat);
                }
                return Err(e);
            },
        };
        push_slice(&mut out, key.as_slice());
        let ordinal = le32_vec(i + 1);
        push_slice(&mut out, ordinal.as_slice());
        i = i + 1;
    }
    Ok(out)
}

/// Number of records of a table file: it starts with layout 1 and its body
/// is whole records, at most `u32::MAX` of them.
pub open spec fn spec_table_record_count(record_file: Seq<u8>, record_size: nat) -> Option<nat> {
    if record_file.len() < 4 || spec_u32_from_le_bytes(record_file.subrange(0, 4)) != 1 || (
    record_file.len() - 4) % (record_size as int) != 0 || (record_file.len() - 4) / (
    record_size as int) > u32::MAX {
        None
    } else {
        Some(((record_file.len() - 4) / (record_size as int)) as nat)
    }
}

fn layout_error(layout: u32, path: &str) -> (s: String)
    ensures
        s@ == "Binary DB content index closure requires layout_id 1, found "@ + crate::text::spec_decimal(
            layout as nat,
        ) + " at "@ + path@,
{
    let mut v = crate::text::chars_of("Binary DB content index closure requires layout_id 1, found ");
    crate::text::push_decimal(&mut v, layout as u64);
    crate::text::push_str(&mut v, " at ");
    crate::text::push_str(&mut v, path);
    crate::text::string_from_chars(&v)
}

/// The message that refuses a table's size: shorter than its header, a
/// layout other than 1, a body that is not whole records, or more records
/// than `u32` counts.
pub open spec fn table_count_refusal(plan: ContentIdentityIndexPlan, record_file: Seq<u8>, e: Seq<char>) -> bool {
    let name = plan.record_name@;
    let layout = spec_u32_from_le_bytes(record_file.subrange(0, 4));
    let body = record_file.len() - 4;
    ||| record_file.len() < 4 && e == name + " is shorter than its layout header"@
    ||| record_file.len() >= 4 && layout != 1 && e
        == "Binary DB content index closure requires layout_id 1, found "@ + crate::text::spec_decimal(
        layout as nat,
    ) + " at "@ + name
    ||| record_file.len() >= 4 && layout == 1 && body % (plan.record_size as int) != 0 && e == name
        + " is not aligned to "@ + crate::text::spec_decimal(plan.record_size as nat)
        + "-byte records"@
    ||| record_file.len() >= 4 && layout == 1 && body % (plan.record_size as int) == 0 && body / (
    plan.record_size as int) > u32::MAX && e == name + " record count exceeds u32::MAX"@
}

fn table_record_count(plan: &ContentIdentityIndexPlan, record_file: &[u8]) -> (r: Result<u32, String>)
    requires
        plan_ok(*plan),
    ensures
        match r {
            Ok(n) => spec_table_record_count(record_file@, plan.record_size as nat) == Some(n as nat),
            Err(e) => spec_table_record_count(record_file@, plan.record_size as nat) is None
                && table_count_refusal(*plan, record_file@, e@),
        },
{
    if record_file.len() < 4 {
        return Err(cat2(plan.record_name, " is shorter than its layout header"));
    }
    let layout = u32_from_le_bytes(vstd::slice::slice_subrange(record_file, 0, 4));
    if layout != 1 {
        return Err(layout_error(layout, plan.record_name));
    }
    let body = (record_file.len() - 4) as u64;
    let size = plan.record_size as u64;
    if body % size != 0 {
        let mut v = crate::text::chars_of(plan.record_name);
        crate::text::push_str(&mut v, " is not aligned to ");
        crate::text::push_decimal(&mut v, size);
        crate::text::push_str(&mut v, "-byte records");
        return Err(crate::text::string_from_chars(&v));
    }
    if body / size > u32::MAX as u64 {
        return Err(cat2(plan.record_name, " record count exceeds u32::MAX"));
    }
    Ok((body / size) as u32)
}

/// The index file rebuilt from a table file: the layout header followed by
/// the entries of every record.
pub open spec fn spec_rebuilt_index(kind: ContentIdentityKind, record_file: Seq<u8>, size: nat) -> Option<
    Seq<u8>,
> {
    match spec_table_record_count(record_file, size) {
        None => None,
        Some(n) => match spec_index_entries(kind, record_file.subrange(4, record_file.len() as int), size, n) {
            None => None,
            Some(e) => Some(le32(1) + e),
        },
    }
}

/// Rebuilds the identity index of a table file and describes it for the
/// generation manifest.
pub fn rebuild_content_identity_index(plan: &ContentIdentityIndexPlan, record_file: &[u8]) -> (r: Result<
    (Vec<u8>, GenerationFileManifest),
    String,
>)
    requires
        plan_ok(*plan),
    ensures
        r is Ok <==> spec_rebuilt_index(plan.kind, record_file@, plan.record_size as nat) is Some,
        r matches Ok((bytes, m)) ==> {
            &&& bytes@ == spec_rebuilt_index(plan.kind, record_file@, plan.record_size as nat)->0
            &&& m.relative_path@ == "local/"@ + plan.index_name@
            &&& m.byte_size == bytes@.len()
            &&& m.sha256@ == crate::text::spec_hex_lower(spec_sha256(bytes@))
            &&& m.record_count is None
        },
{
    let count = table_record_count(plan, record_file)?;
    let body = vstd::slice::slice_subrange(record_file, 4, record_file.len());
    assert((record_file@.len() - 4) as nat == count * (plan.record_size as nat)) by (nonlinear_arith)
        requires
            (record_file@.len() - 4) % (plan.record_size as int) == 0,
            count == (record_file@.len() - 4) / (plan.record_size as int),
            plan.record_size > 0,
    ;
    let entries = content_identity_index_entries(plan.kind, body, plan.record_size as usize, count)?;
    let mut bytes = le32_vec(1);
    push_slice(&mut bytes, entries.as_slice());
    let digest = sha256_digest(bytes.as_slice());
    let manifest = GenerationFileManifest {
        relative_path: cat2("local/", plan.index_name),
        byte_size: bytes.len() as u64,
        sha256: crate::text::hex_lower(&digest),
        record_count: None,
    };
    Ok((bytes, manifest))
}

/// The message that refuses an identity index against its table: the
/// table's size, an index of the wrong size or layout, a record whose key
/// cannot be derived, or a candidate with the wrong key or plus-one ordinal.
pub open spec fn identity_index_refusal(
    plan: ContentIdentityIndexPlan,
    record_file: Seq<u8>,
    index_file: Seq<u8>,
    e: Seq<char>,
) -> bool {
    let size = plan.record_size as nat;
    let w = plan.key_size + 4;
    let idx = "Binary DB content index "@ + plan.index_name@;
    let body = record_file.subrange(4, record_file.len() as int);
    ||| spec_table_record_count(record_file, size) is None && table_count_refusal(plan, record_file, e)
    ||| (spec_table_record_count(record_file, size) matches Some(count) && {
        ||| index_file.len() != 4 + count * w && e == idx + " has "@ + crate::text::spec_decimal(
            index_file.len(),
        ) + " bytes, expected "@ + crate::text::spec_decimal((4 + count * w) as nat)
            + " canonical fixed-key bytes for "@ + crate::text::spec_decimal(count) + " records."@
        ||| index_file.len() == 4 + count * w && spec_u32_from_le_bytes(index_file.subrange(0, 4))
            != 1 && e == "Binary DB content index closure requires layout_id 1, found "@
            + crate::text::spec_decimal(spec_u32_from_le_bytes(index_file.subrange(0, 4)) as nat)
            + " at "@ + plan.index_name@
        ||| index_file.len() == 4 + count * w && exists|i: int|
            0 <= i < count && {
                let at = 4 + i * w;
                let key = spec_identity_key(plan.kind, #[trigger] record_at(body, size, i));
                ||| key is None
                ||| key is Some && index_file.subrange(at, at + plan.key_size) != key->0 && e == idx
                    + " key "@ + crate::text::spec_decimal(i as nat)
                    + " does not match authoritative "@ + plan.record_name@ + " record "@
                    + crate::text::spec_decimal(i as nat) + "."@
                ||| key is Some && spec_u32_from_le_bytes(
                    index_file.subrange(at + plan.key_size, at + w),
                ) != i + 1 && e == idx + " candidate "@ + crate::text::spec_decimal(i as nat)
                    + " stores plus-one ordinal "@ + crate::text::spec_decimal(
                    spec_u32_from_le_bytes(index_file.subrange(at + plan.key_size, at + w)) as nat,
                ) + ", expected "@ + crate::text::spec_decimal((i + 1) as nat) + "."@
            }
    })
}

/// Checks an identity index file against its table file. Succeeds exactly
/// when it is byte for byte the rebuilt index.
pub fn validate_content_identity_index(
    plan: &ContentIdentityIndexPlan,
    record_file: &[u8],
    index_file: &[u8],
) -> (r: Result<(), String>)
    requires
        plan_ok(*plan),
    ensures
        r is Ok <==> spec_rebuilt_index(plan.kind, record_file@, plan.record_size as nat) == Some(
            index_file@,
        ),
        r matches Err(e) ==> identity_index_refusal(*plan, record_file@, index_file@, e@),
{
    let ghost kind = plan.kind;
    let ghost size = plan.record_size as nat;
    let ghost w = key_len(kind) + 4;
    let count = table_record_count(plan, record_file)?;
    let body = vstd::slice::slice_subrange(record_file, 4, record_file.len());
    assert((record_file@.len() - 4) as nat == count * (plan.record_size as nat)) by (nonlinear_arith)
        requires
            (record_file@.len() - 4) % (plan.record_size as int) == 0,
            count == (record_file@.len() - 4) / (plan.record_size as int),
            plan.record_size > 0,
    ;
    assert(plan.key_size == key_len(kind) && (plan.key_size == 8 || plan.key_size == 10));
    let width = plan.key_size as u64 + 4;
    assert((count as u64) * width <= 0xffff_ffff * 14) by (nonlinear_arith)
        requires
            count <= 0xffff_ffff,
            width <= 14,
    ;
    let expected_size = 4 + (count as u64) * width;
    if index_file.len() as u64 != expected_size {
        proof {
            if spec_index_entries(kind, body@, size, count as nat) is Some {
                lemma_entries_shape(kind, body@, size, count as nat, count as nat);
                lemma_le_lengths();
            }
        }
        let mut v = crate::text::chars_of("Binary DB content index ");
        crate::text::push_str(&mut v, plan.index_name);
        crate::text::push_str(&mut v, " has ");
        crate::text::push_decimal(&mut v, index_file.len() as u64);
        crate::text::push_str(&mut v, " bytes, expected ");
        crate::text::push_decimal(&mut v, expected_size);
        crate::text::push_str(&mut v, " canonical fixed-key bytes for ");
        crate::text::push_decimal(&mut v, count as u64);
        crate::text::push_str(&mut v, " records.");
        let message = crate::text::string_from_chars(&v);
        assert(identity_index_refusal(*plan, record_file@, index_file@, message@));
        return Err(message);
    }
    let layout = u32_from_le_bytes(vstd::slice::slice_subrange(index_file, 0, 4));
    if layout != 1 {
        proof {
            lemma_auto_spec_u32_to_from_le_bytes();
            if spec_rebuilt_index(kind, record_file@, size) == Some(index_file@) {
                assert(index_file@.subrange(0, 4) =~= le32(1));
            }
        }
        let message = layout_error(layout, plan.index_name);
        assert(identity_index_refusal(*plan, record_file@, index_file@, message@));
        return Err(message);
    }
    proof {
        lemma_le_lengths();
        lemma_auto_spec_u32_to_from_le_bytes();
        assert(index_file@.subrange(0, 4) == le32(1));
    }
    let mut i: u32 = 0;
    while i < count
        invariant
            plan_ok(*plan),
            kind == plan.kind,
            size == plan.record_size as nat,
            w == key_len(kind) + 4,
            body@ == record_file@.subrange(4, record_file@.len() as int),
            body@.len() == count * plan.record_size,
            index_file@.len() == 4 + count * w,
            spec_table_record_count(record_file@, size) == Some(count as nat),
            i <= count,
            spec_index_entries(kind, body@, size, i as nat) is Some,
            index_file@.subrange(0, 4 + i * w) == le32(1) + spec_index_entries(kind, body@, size, i as nat)->0,
        decreases count - i,
    {
        proof {
            lemma_entries_shape(kind, body@, size, i as nat, i as nat);
        }
        assert((i + 1) * plan.record_size as int <= count * plan.record_size as int) by (nonlinear_arith)
            requires
                i + 1 <= count,
        ;
        assert(i * (plan.record_size as int) + plan.record_size as int == (i + 1) * (plan.record_size as int))
            by (nonlinear_arith);
        assert(4 + (i + 1) * w <= 4 + count * w) by (nonlinear_arith)
            requires
                i + 1 <= count,
        ;
        assert(4 + i * w + w == 4 + (i + 1) * w) by (nonlinear_arith);
        assert(i * (plan.record_size as int) + plan.record_size as int <= body.len());
        assert(4 + (i + 1) * w <= index_file.len());
        assert(plan.key_size + 4 == w);
        let start = i as usize * plan.record_size as usize;
        let raw = vstd::slice::slice_subrange(body, start, start + plan.record_size as usize);
        assert(raw@ == record_at(body@, size, i as int));
        let expected_key = match content_identity_key(plan.kind, raw) {
            Ok(key) => key,
            Err(e) => {
                proof {
                    lemma_entries_none_extends(kind, body@, size, (i + 1) as nat, count as nat);
                    assert(spec_identity_key(kind, record_at(body@, size, i as int)) is None);
                    assert(identity_index_refusal(*plan, record_file@, index_file@, e@));
                }
                return Err(e);
            },
        };
        proof {
            lemma_key_len(kind, raw@);
        }
        assert(i * w + w <= index_file.len()) by (nonlinear_arith)
            requires
                4 + i * w + w <= index_file.len(),
        ;
        let at = 4 + i as usize * (plan.key_size + 4);
        assert(at == 4 + i * w);
        let stored_key = vstd::slice::slice_subrange(index_file, at, at + plan.key_size);
        let stored_ordinal = u32_from_le_bytes(
            vstd::slice::slice_subrange(index_file, at + plan.key_size, at + plan.key_size + 4),
        );
        let ghost next = spec_index_entries(kind, body@, size, (i + 1) as nat);
        proof {
            assert(next == Some(spec_index_entries(kind, body@, size, i as nat)->0 + expected_key@ + le32((i + 1) as u32)));
        }
        if !bytes_equal(stored_key, expected_key.as_slice()) {
            proof {
                if spec_rebuilt_index(kind, record_file@, size) == Some(index_file@) {
                    lemma_entry_at(kind, body@, size, i as nat, count as nat);
                    let full = spec_index_entries(kind, body@, size, count as nat)->0;
                    assert(index_file@ == le32(1) + full);
                    assert(stored_key@ =~= full.subrange((i * w) as int, (i * w + key_len(kind)) as int));
                }
            }
            let mut v = crate::text::chars_of("Binary DB content index ");
            crate::text::push_str(&mut v, plan.index_name);
            crate::text::push_str(&mut v, " key ");
            crate::text::push_decimal(&mut v, i as u64);
            crate::text::push_str(&mut v, " does not match authoritative ");
            crate::text::push_str(&mut v, plan.record_name);
            crate::text::push_str(&mut v, " record ");
            crate::text::push_decimal(&mut v, i as u64);
            crate::text::push_str(&mut v, ".");
            let message = crate::text::string_from_chars(&v);
            proof {
                assert(stored_key@ == index_file@.subrange(at as int, at + plan.key_size));
                assert(stored_key@ != expected_key@);
                assert(identity_index_refusal(*plan, record_file@, index_file@, message@));
            }
            return Err(message);
        }
        if stored_ordinal != i + 1 {
            proof {
                if spec_rebuilt_index(kind, record_file@, size) == Some(index_file@) {
                    lemma_entry_at(kind, body@, size, i as nat, count as nat);
                    let full = spec_index_entries(kind, body@, size, count as nat)->0;
                    assert(index_file@ == le32(1) + full);
                    assert(index_file@.subrange(at + plan.key_size, at + plan.key_size + 4) =~= full.subrange(
                        (i * w + key_len(kind)) as int,
                        ((i + 1) * w) as int,
                    ));
                    lemma_auto_spec_u32_to_from_le_bytes();
                }
            }
            let mut v = crate::text::chars_of("Binary DB content index ");
            crate::text::push_str(&mut v, plan.index_name);
            crate::text::push_str(&mut v, " candidate ");
            crate::text::push_decimal(&mut v, i as u64);
            crate::text::push_str(&mut v, " stores plus-one ordinal ");
            crate::text::push_decimal(&mut v, stored_ordinal as u64);
            crate::text::push_str(&mut v, ", expected ");
            crate::text::push_decimal(&mut v, (i + 1) as u64);
            crate::text::push_str(&mut v, ".");
            let message = crate::text::string_from_chars(&v);
            proof {
                assert(identity_index_refusal(*plan, record_file@, index_file@, message@));
            }
            return Err(message);
        }
        proof {
            lemma_auto_spec_u32_to_from_le_bytes();
            let ord = index_file@.subrange(at + plan.key_size, at + plan.key_size + 4);
            assert(ord.len() == 4);
            assert(le32(spec_u32_from_le_bytes(ord)) == ord);
            assert(index_file@.subrange(0, 4 + (i + 1) * w) =~= index_file@.subrange(0, 4 + i * w)
                + stored_key@ + ord);
        }
        i = i + 1;
    }
    proof {
        assert(index_file@.subrange(0, 4 + count * w) =~= index_file@);
    }
    Ok(())
}

pub(crate) fn bytes_equal(a: &[u8], b: &[u8]) -> (r: bool)
    ensures
        r == (a@ == b@),
{
    if a.len() != b.len() {
        return false;
    }
    let mut i: usize = 0;
    while i < a.len()
        invariant
            a@.len() == b@.len(),
            i <= a@.len(),
            forall|k: int| 0 <= k < i ==> a@[k] == b@[k],
        decreases a@.len() - i,
    {
        if a[i] != b[i] {
            return false;
        }
        i = i + 1;
    }
    assert(a@ =~= b@);
    true
}

} // verus!
