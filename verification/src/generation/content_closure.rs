//! The content closure of a repository generation: every content record
//! decodes and is live, pack ranges tile their target tables, members,
//! blobs, trees and snapshots point only at records that exist and point
//! back, tree entries name live content, snapshot payloads agree with their
//! records, the parent graph is canonical, and the identity indexes match
//! their tables.

use vstd::prelude::*;

use crate::generation::closure::{
    backreference_error, blob_pointer_ok, checked_range_end, dense_range_refusal,
    member_placed_ok, owner_prefix, parent_authority_error, parent_lists_view, record_count,
    record_count_refusal, require_dense_coverage, require_dense_range, require_index,
    require_payload_range, snapshot_parents_ok, validate_object_member_backreferences,
    validate_snapshot_parent_authority, FILE_HEADER_BYTES,
};
use crate::generation::indexes::{
    identity_index_refusal, plan_kind_row, plan_ok, spec_rebuilt_index,
    validate_content_identity_index,
    ContentIdentityIndexPlan, ContentIdentityKind,
};
use crate::ids::{blob_id_from_sha256, spec_blob_id, spec_tree_id, tree_id_from_hash80};
use crate::read::BinaryTreeEntryView;
use crate::schema::codec::{
    blob_record_bytes, lemma_blob_record_bytes_injective,
    lemma_object_pack_member_record_bytes_injective, lemma_object_pack_record_bytes_injective,
    lemma_snapshot_record_bytes_injective, lemma_tree_pack_record_bytes_injective,
    lemma_tree_record_bytes_injective, object_pack_member_record_bytes, object_pack_record_bytes,
    snapshot_record_bytes, snapshot_record_valid, spec_decode_payload, tree_pack_record_bytes,
    tree_record_bytes, BinaryBlobCodec, BinaryObjectPackCodec, BinaryObjectPackMemberCodec,
    BinarySnapshotCodec, BinaryTreeCodec, BinaryTreePackCodec,
};
use crate::schema::records::{
    plus_one_index, BinaryBlobRecord, BinaryObjectPackMemberRecord, BinaryObjectPackRecord,
    BinarySnapshotRecord, BinaryTreePackRecord, BinaryTreeRecord,
};
use crate::text::{
    ascii_lower_seq, cat2, chars_eq, chars_of, owned, push_decimal, push_str, spec_decimal,
    spec_hex_lower,
    string_from_chars, to_ascii_lowercase,
};

verus! {

// ----- the authority files ------------------------------------------------------

/// The authority files of a repository content generation, each `None` when
/// the file is absent.
pub struct ContentAuthorityFiles {
    pub blob: Option<Vec<u8>>,
    pub snapshot: Option<Vec<u8>>,
    pub snapshot_payload: Option<Vec<u8>>,
    pub object_pack: Option<Vec<u8>>,
    pub object_pack_member: Option<Vec<u8>>,
    pub tree_pack: Option<Vec<u8>>,
    pub tree: Option<Vec<u8>>,
    pub blob_id_index: Option<Vec<u8>>,
    pub snapshot_id_index: Option<Vec<u8>>,
    pub object_pack_id_index: Option<Vec<u8>>,
    pub tree_id_index: Option<Vec<u8>>,
    pub tree_pack_id_index: Option<Vec<u8>>,
}

/// The record counts of a generation whose content closure holds.
#[derive(Clone, Copy, Debug, PartialEq, Eq)]
pub struct RepositoryContentClosureSummary {
    pub blob_count: u32,
    pub snapshot_count: u32,
    pub object_pack_count: u32,
    pub object_pack_member_count: u32,
    pub tree_pack_count: u32,
    pub tree_count: u32,
    pub tree_entry_count: u64,
}

pub open spec fn file_view(f: Option<Vec<u8>>) -> Option<Seq<u8>> {
    match f {
        Some(v) => Some(v@),
        None => None,
    }
}

/// Records in a table file (none when it is absent): the body after the
/// header is whole records, at most `u32::MAX` of them.
pub open spec fn spec_file_record_count(file: Option<Seq<u8>>, size: nat) -> Option<nat> {
    match file {
        None => Some(0),
        Some(b) => if b.len() >= 4 && (b.len() - 4) % (size as int) == 0 && (b.len() - 4) / (
        size as int) <= u32::MAX {
            Some(((b.len() - 4) / (size as int)) as nat)
        } else {
            None
        },
    }
}

/// The bytes of record `i` of a table file.
pub open spec fn raw_record(file: Option<Seq<u8>>, size: nat, i: int) -> Seq<u8> {
    match file {
        Some(b) => b.subrange(4 + i * size, 4 + (i + 1) * size),
        None => Seq::empty(),
    }
}

pub open spec fn blob_table(file: Option<Seq<u8>>, n: nat) -> Seq<BinaryBlobRecord> {
    Seq::new(n, |i: int| choose|r: BinaryBlobRecord| blob_record_bytes(r) == raw_record(file, 64, i))
}

pub open spec fn object_pack_table(file: Option<Seq<u8>>, n: nat) -> Seq<BinaryObjectPackRecord> {
    Seq::new(
        n,
        |i: int| choose|r: BinaryObjectPackRecord| object_pack_record_bytes(r) == raw_record(file, 32, i),
    )
}

pub open spec fn member_table(file: Option<Seq<u8>>, n: nat) -> Seq<BinaryObjectPackMemberRecord> {
    Seq::new(
        n,
        |i: int|
            choose|r: BinaryObjectPackMemberRecord|
                object_pack_member_record_bytes(r) == raw_record(file, 16, i),
    )
}

pub open spec fn tree_pack_table(file: Option<Seq<u8>>, n: nat) -> Seq<BinaryTreePackRecord> {
    Seq::new(
        n,
        |i: int| choose|r: BinaryTreePackRecord| tree_pack_record_bytes(r) == raw_record(file, 32, i),
    )
}

pub open spec fn tree_table(file: Option<Seq<u8>>, n: nat) -> Seq<BinaryTreeRecord> {
    Seq::new(n, |i: int| choose|r: BinaryTreeRecord| tree_record_bytes(r) == raw_record(file, 20, i))
}

/// The bytes are those of a valid snapshot record.
pub open spec fn is_snapshot_record(raw: Seq<u8>) -> bool {
    exists|r: BinarySnapshotRecord| snapshot_record_bytes(r) == raw && snapshot_record_valid(r)
}

/// Every snapshot record of the table is a valid snapshot record.
pub open spec fn snapshot_table_decodes(file: Option<Seq<u8>>, n: nat) -> bool {
    forall|i: int| 0 <= i < n ==> is_snapshot_record(#[trigger] raw_record(file, 88, i))
}

pub open spec fn snapshot_table(file: Option<Seq<u8>>, n: nat) -> Seq<BinarySnapshotRecord> {
    Seq::new(
        n,
        |i: int|
            choose|r: BinarySnapshotRecord|
                snapshot_record_bytes(r) == raw_record(file, 88, i) && snapshot_record_valid(r),
    )
}

fn file_len(file: &Option<Vec<u8>>) -> (r: Option<u64>)
    ensures
        match file_view(*file) {
            None => r is None,
            Some(b) => r matches Some(n) && n == b.len(),
        },
{
    match file {
        Some(v) => Some(v.len() as u64),
        None => None,
    }
}

/// The message that refuses the size of a present record file.
pub open spec fn count_refusal(name: Seq<char>, file: Option<Seq<u8>>, size: u32, e: Seq<char>) -> bool {
    file matches Some(b) && e == record_count_refusal(name, b.len() as u64, size)
}

fn file_record_count(name: &str, file: &Option<Vec<u8>>, size: u32) -> (r: Result<u32, String>)
    requires
        size > 0,
    ensures
        match r {
            Ok(n) => spec_file_record_count(file_view(*file), size as nat) == Some(n as nat),
            Err(e) => spec_file_record_count(file_view(*file), size as nat) is None && count_refusal(
                name@,
                file_view(*file),
                size,
                e@,
            ),
        },
{
    record_count(name, file_len(file), size)
}

/// The bytes of record `i` of a table file with `count` records.
fn record_slice<'a>(file: &'a Option<Vec<u8>>, size: usize, count: u32, i: u32) -> (raw: &'a [u8])
    requires
        0 < size <= 128,
        i < count,
        spec_file_record_count(file_view(*file), size as nat) == Some(count as nat),
    ensures
        raw@ == raw_record(file_view(*file), size as nat, i as int),
        raw@.len() == size,
{
    match file {
        Some(bytes) => {
            let total = bytes.len();
            assert((bytes@.len() - 4) == count * size) by (nonlinear_arith)
                requires
                    (bytes@.len() - 4) % (size as int) == 0,
                    count == (bytes@.len() - 4) / (size as int),
                    size > 0,
            ;
            assert((i + 1) * size <= count * size) by (nonlinear_arith)
                requires
                    i + 1 <= count,
            ;
            assert(i * size + size == (i + 1) * size) by (nonlinear_arith);
            assert(i * size <= count * size) by (nonlinear_arith)
                requires
                    i <= count,
            ;
            let iu: usize = i as usize;
            assert(iu * size <= bytes@.len() - 4) by (nonlinear_arith)
                requires
                    iu == i,
                    i <= count,
                    bytes@.len() - 4 == count * size,
            ;
            let start = 4 + iu * size;
            vstd::slice::slice_subrange(bytes.as_slice(), start, start + size)
        },
        None => {
            assert(false);
            &[]
        },
    }
}

fn decode_blob_table(file: &Option<Vec<u8>>, count: u32) -> (r: Vec<BinaryBlobRecord>)
    requires
        spec_file_record_count(file_view(*file), 64) == Some(count as nat),
    ensures
        r@ == blob_table(file_view(*file), count as nat),
{
    let ghost f = file_view(*file);
    let mut out: Vec<BinaryBlobRecord> = Vec::new();
    let mut i: u32 = 0;
    while i < count
        invariant
            f == file_view(*file),
            spec_file_record_count(f, 64) == Some(count as nat),
            i <= count,
            out@.len() == i,
            forall|k: int| 0 <= k < i ==> out@[k] == #[trigger] blob_table(f, count as nat)[k],
        decreases count - i,
    {
        let raw = record_slice(file, 64, count, i);
        let rec = match BinaryBlobCodec::<1>::decode_record(raw) {
            Ok(rec) => rec,
            Err(_) => {
                assert(false);
                return out;
            },
        };
        proof {
            let c = choose|r: BinaryBlobRecord| blob_record_bytes(r) == raw_record(f, 64, i as int);
            lemma_blob_record_bytes_injective(c, rec);
        }
        out.push(rec);
        i = i + 1;
    }
    assert(out@ =~= blob_table(f, count as nat));
    out
}

fn decode_object_pack_table(file: &Option<Vec<u8>>, count: u32) -> (r: Vec<BinaryObjectPackRecord>)
    requires
        spec_file_record_count(file_view(*file), 32) == Some(count as nat),
    ensures
        r@ == object_pack_table(file_view(*file), count as nat),
{
    let ghost f = file_view(*file);
    let mut out: Vec<BinaryObjectPackRecord> = Vec::new();
    let mut i: u32 = 0;
    while i < count
        invariant
            f == file_view(*file),
            spec_file_record_count(f, 32) == Some(count as nat),
            i <= count,
            out@.len() == i,
            forall|k: int| 0 <= k < i ==> out@[k] == #[trigger] object_pack_table(f, count as nat)[k],
        decreases count - i,
    {
        let raw = record_slice(file, 32, count, i);
        let rec = match BinaryObjectPackCodec::<1>::decode_record(raw) {
            Ok(rec) => rec,
            Err(_) => {
                assert(false);
                return out;
            },
        };
        proof {
            let c = choose|r: BinaryObjectPackRecord|
                object_pack_record_bytes(r) == raw_record(f, 32, i as int);
            lemma_object_pack_record_bytes_injective(c, rec);
        }
        out.push(rec);
        i = i + 1;
    }
    assert(out@ =~= object_pack_table(f, count as nat));
    out
}

fn decode_member_table(file: &Option<Vec<u8>>, count: u32) -> (r: Vec<BinaryObjectPackMemberRecord>)
    requires
        spec_file_record_count(file_view(*file), 16) == Some(count as nat),
    ensures
        r@ == member_table(file_view(*file), count as nat),
{
    let ghost f = file_view(*file);
    let mut out: Vec<BinaryObjectPackMemberRecord> = Vec::new();
    let mut i: u32 = 0;
    while i < count
        invariant
            f == file_view(*file),
            spec_file_record_count(f, 16) == Some(count as nat),
            i <= count,
            out@.len() == i,
            forall|k: int| 0 <= k < i ==> out@[k] == #[trigger] member_table(f, count as nat)[k],
        decreases count - i,
    {
        let raw = record_slice(file, 16, count, i);
        let rec = match BinaryObjectPackMemberCodec::<1>::decode_record(raw) {
            Ok(rec) => rec,
            Err(_) => {
                assert(false);
                return out;
            },
        };
        proof {
            let c = choose|r: BinaryObjectPackMemberRecord|
                object_pack_member_record_bytes(r) == raw_record(f, 16, i as int);
            lemma_object_pack_member_record_bytes_injective(c, rec);
        }
        out.push(rec);
        i = i + 1;
    }
    assert(out@ =~= member_table(f, count as nat));
    out
}

fn decode_tree_pack_table(file: &Option<Vec<u8>>, count: u32) -> (r: Vec<BinaryTreePackRecord>)
    requires
        spec_file_record_count(file_view(*file), 32) == Some(count as nat),
    ensures
        r@ == tree_pack_table(file_view(*file), count as nat),
{
    let ghost f = file_view(*file);
    let mut out: Vec<BinaryTreePackRecord> = Vec::new();
    let mut i: u32 = 0;
    while i < count
        invariant
            f == file_view(*file),
            spec_file_record_count(f, 32) == Some(count as nat),
            i <= count,
            out@.len() == i,
            forall|k: int| 0 <= k < i ==> out@[k] == #[trigger] tree_pack_table(f, count as nat)[k],
        decreases count - i,
    {
        let raw = record_slice(file, 32, count, i);
        let rec = match BinaryTreePackCodec::<1>::decode_record(raw) {
            Ok(rec) => rec,
            Err(_) => {
                assert(false);
                return out;
            },
        };
        proof {
            let c = choose|r: BinaryTreePackRecord| tree_pack_record_bytes(r) == raw_record(f, 32, i as int);
            lemma_tree_pack_record_bytes_injective(c, rec);
        }
        out.push(rec);
        i = i + 1;
    }
    assert(out@ =~= tree_pack_table(f, count as nat));
    out
}

fn decode_tree_table(file: &Option<Vec<u8>>, count: u32) -> (r: Vec<BinaryTreeRecord>)
    requires
        spec_file_record_count(file_view(*file), 20) == Some(count as nat),
    ensures
        r@ == tree_table(file_view(*file), count as nat),
{
    let ghost f = file_view(*file);
    let mut out: Vec<BinaryTreeRecord> = Vec::new();
    let mut i: u32 = 0;
    while i < count
        invariant
            f == file_view(*file),
            spec_file_record_count(f, 20) == Some(count as nat),
            i <= count,
            out@.len() == i,
            forall|k: int| 0 <= k < i ==> out@[k] == #[trigger] tree_table(f, count as nat)[k],
        decreases count - i,
    {
        let raw = record_slice(file, 20, count, i);
        let rec = match BinaryTreeCodec::<1>::decode_record(raw) {
            Ok(rec) => rec,
            Err(_) => {
                assert(false);
                return out;
            },
        };
        proof {
            let c = choose|r: BinaryTreeRecord| tree_record_bytes(r) == raw_record(f, 20, i as int);
            lemma_tree_record_bytes_injective(c, rec);
        }
        out.push(rec);
        i = i + 1;
    }
    assert(out@ =~= tree_table(f, count as nat));
    out
}

/// An error of snapshot decoding: a snapshot record that does not decode,
/// with the decoder's own reason after its number.
pub open spec fn snapshot_decode_error(file: Option<Seq<u8>>, count: nat, e: Seq<char>) -> bool {
    exists|i: int|
        0 <= i < count && !is_snapshot_record(#[trigger] raw_record(file, 88, i)) && (
        "Binary DB content closure cannot decode snapshot "@ + spec_decimal(i as nat) + ": "@).is_prefix_of(
            e,
        )
}

fn decode_snapshot_table(file: &Option<Vec<u8>>, count: u32) -> (r: Result<
    Vec<BinarySnapshotRecord>,
    String,
>)
    requires
        spec_file_record_count(file_view(*file), 88) == Some(count as nat),
    ensures
        r is Ok <==> snapshot_table_decodes(file_view(*file), count as nat),
        r matches Ok(v) ==> v@ == snapshot_table(file_view(*file), count as nat),
        r matches Err(e) ==> snapshot_decode_error(file_view(*file), count as nat, e@),
{
    let ghost f = file_view(*file);
    let mut out: Vec<BinarySnapshotRecord> = Vec::new();
    let mut i: u32 = 0;
    while i < count
        invariant
            f == file_view(*file),
            spec_file_record_count(f, 88) == Some(count as nat),
            i <= count,
            out@.len() == i,
            forall|k: int| 0 <= k < i ==> out@[k] == #[trigger] snapshot_table(f, count as nat)[k],
            forall|k: int| 0 <= k < i ==> is_snapshot_record(#[trigger] raw_record(f, 88, k)),
        decreases count - i,
    {
        let raw = record_slice(file, 88, count, i);
        let rec = match BinarySnapshotCodec::<1>::decode_record(raw) {
            Ok(rec) => rec,
            Err(e) => {
                proof {
                    if snapshot_table_decodes(f, count as nat) {
                        assert(is_snapshot_record(raw_record(f, 88, i as int)));
                    }
                }
                let mut v = chars_of("Binary DB content closure cannot decode snapshot ");
                push_decimal(&mut v, i as u64);
                push_str(&mut v, ": ");
                push_str(&mut v, e.message.as_str());
                let message = string_from_chars(&v);
                proof {
                    let pre = "Binary DB content closure cannot decode snapshot "@ + spec_decimal(
                        i as nat,
                    ) + ": "@;
                    assert(message@ == pre + e.message@);
                    assert(message@.subrange(0, pre.len() as int) =~= pre);
                    assert(!is_snapshot_record(raw_record(f, 88, i as int)));
                }
                return Err(message);
            },
        };
        proof {
            let c = choose|r: BinarySnapshotRecord|
                snapshot_record_bytes(r) == raw_record(f, 88, i as int) && snapshot_record_valid(r);
            lemma_snapshot_record_bytes_injective(c, rec);
            assert(is_snapshot_record(raw_record(f, 88, i as int)));
        }
        out.push(rec);
        i = i + 1;
    }
    assert(out@ =~= snapshot_table(f, count as nat));
    Ok(out)
}

// ----- blobs ---------------------------------------------------------------------

/// A blob of a canonical generation is available, and the member it selects,
/// when it selects one, is one of the `member_count` members.
pub open spec fn blob_record_ok(b: BinaryBlobRecord, member_count: nat) -> bool {
    &&& !b.spec_is_tombstone()
    &&& !b.spec_is_pruned()
    &&& plus_one_index(b.pack_member_index_plus1) matches Some(m) ==> m < member_count
}

/// The member each blob selects.
pub open spec fn member_pointers(blobs: Seq<BinaryBlobRecord>) -> Seq<Option<u32>> {
    Seq::new(blobs.len(), |i: int| plus_one_index(blobs[i].pack_member_index_plus1))
}

/// The message that a canonical generation contains an unacceptable
/// `middle` record numbered `index`.
pub open spec fn canonical_text(middle: Seq<char>, index: nat) -> Seq<char> {
    "Binary DB canonical generation contains "@ + middle + " "@ + spec_decimal(index) + "."@
}

fn canonical_message(middle: &str, index: u64) -> (s: String)
    ensures
        s@ == canonical_text(middle@, index as nat),
{
    let mut v = chars_of("Binary DB canonical generation contains ");
    push_str(&mut v, middle);
    push_str(&mut v, " ");
    push_decimal(&mut v, index);
    push_str(&mut v, ".");
    string_from_chars(&v)
}

/// An error of the blob check: an unavailable blob, or a blob that selects
/// a member past the `member_count` members.
pub open spec fn blob_records_error(blobs: Seq<BinaryBlobRecord>, member_count: u32, e: Seq<char>) -> bool {
    exists|i: int|
        0 <= i < blobs.len() && {
            ||| ((#[trigger] blobs[i]).spec_is_tombstone() || blobs[i].spec_is_pruned()) && e
                == canonical_text("unavailable blob"@, i as nat)
            ||| !blobs[i].spec_is_tombstone() && !blobs[i].spec_is_pruned() && (plus_one_index(
                blobs[i].pack_member_index_plus1,
            ) matches Some(m) && m >= member_count && e == owner_prefix("blob"@, i as u32)
                + " references "@ + "object pack member"@ + " index "@ + spec_decimal(m as nat)
                + ", but only "@ + spec_decimal(member_count as nat) + " records exist."@)
        }
}

/// Checks every blob record and collects the member each one selects.
/// Succeeds exactly when every blob is available and selects an existing
/// member or none.
pub fn validate_blob_records(blobs: &[BinaryBlobRecord], member_count: u32) -> (r: Result<
    Vec<Option<u32>>,
    String,
>)
    requires
        blobs@.len() <= u32::MAX,
    ensures
        r is Ok <==> forall|i: int|
            0 <= i < blobs@.len() ==> #[trigger] blob_record_ok(blobs@[i], member_count as nat),
        r matches Ok(p) ==> p@ == member_pointers(blobs@),
        r matches Err(e) ==> blob_records_error(blobs@, member_count, e@),
{
    let mut pointers: Vec<Option<u32>> = Vec::new();
    let mut i: usize = 0;
    while i < blobs.len()
        invariant
            blobs@.len() <= u32::MAX,
            i <= blobs@.len(),
            pointers@.len() == i,
            forall|k: int| 0 <= k < i ==> #[trigger] blob_record_ok(blobs@[k], member_count as nat),
            forall|k: int| 0 <= k < i ==> pointers@[k] == #[trigger] member_pointers(blobs@)[k],
        decreases blobs@.len() - i,
    {
        let record = &blobs[i];
        if record.is_tombstone() || record.is_pruned() {
            assert(!blob_record_ok(blobs@[i as int], member_count as nat));
            let e = canonical_message("unavailable blob", i as u64);
            assert(blobs@[i as int].spec_is_tombstone() || blobs@[i as int].spec_is_pruned());
            return Err(e);
        }
        let member_index = record.pack_member_index();
        match member_index {
            Some(m) => {
                if let Err(e) = require_index("blob", i as u32, "object pack member", m, member_count) {
                    assert(!blob_record_ok(blobs@[i as int], member_count as nat));
                    assert(plus_one_index(blobs@[i as int].pack_member_index_plus1) == Some(m));
                    return Err(e);
                }
            },
            None => {},
        }
        pointers.push(member_index);
        i = i + 1;
    }
    assert(pointers@ =~= member_pointers(blobs@));
    Ok(pointers)
}

// ----- pack ranges ----------------------------------------------------------------

/// Each pack's range of target records, as (first, count, available).
pub open spec fn object_pack_ranges(packs: Seq<BinaryObjectPackRecord>) -> Seq<(u32, u32, bool)> {
    Seq::new(
        packs.len(),
        |i: int|
            (
                packs[i].first_member_index,
                packs[i].member_count,
                !packs[i].spec_is_tombstone() && packs[i].spec_is_ready(),
            ),
    )
}

pub open spec fn tree_pack_ranges(packs: Seq<BinaryTreePackRecord>) -> Seq<(u32, u32, bool)> {
    Seq::new(
        packs.len(),
        |i: int|
            (
                packs[i].first_tree_index,
                packs[i].tree_count,
                !packs[i].spec_is_tombstone() && packs[i].spec_is_ready(),
            ),
    )
}

/// Where the first `n` ranges end when each starts where the previous one
/// ended (the first at zero) and stays inside `target` records; `None` once
/// a range breaks that.
pub open spec fn dense_cursor(ranges: Seq<(u32, u32, bool)>, target: nat, n: nat) -> Option<nat>
    decreases n,
{
    if n == 0 {
        Some(0)
    } else {
        match dense_cursor(ranges, target, (n - 1) as nat) {
            Some(c) => {
                let r = ranges[n - 1];
                if r.0 == c && c + r.1 <= target {
                    Some((c + r.1) as nat)
                } else {
                    None
                }
            },
            None => None,
        }
    }
}

/// Every pack is available and the packs' ranges tile the target table.
pub open spec fn pack_ranges_ok(ranges: Seq<(u32, u32, bool)>, target: nat) -> bool {
    &&& forall|i: int| 0 <= i < ranges.len() ==> (#[trigger] ranges[i]).2
    &&& dense_cursor(ranges, target, ranges.len()) == Some(target)
}

pub(crate) proof fn lemma_dense_cursor_none(ranges: Seq<(u32, u32, bool)>, target: nat, a: nat, b: nat)
    requires
        a <= b,
        dense_cursor(ranges, target, a) is None,
    ensures
        dense_cursor(ranges, target, b) is None,
    decreases b - a,
{
    if a < b {
        lemma_dense_cursor_none(ranges, target, a, (b - 1) as nat);
    }
}

pub(crate) proof fn lemma_dense_cursor_bound(ranges: Seq<(u32, u32, bool)>, target: nat, n: nat, c: int)
    requires
        dense_cursor(ranges, target, n) is Some,
        0 <= c < n,
    ensures
        ranges[c].0 + ranges[c].1 <= dense_cursor(ranges, target, n)->0,
    decreases n,
{
    if c < n - 1 {
        lemma_dense_cursor_bound(ranges, target, (n - 1) as nat, c);
    }
}

proof fn lemma_dense_cursor_prefix(ranges: Seq<(u32, u32, bool)>, target: nat, n: nat, k: nat)
    requires
        dense_cursor(ranges, target, n) is Some,
        k < n,
    ensures
        dense_cursor(ranges, target, k) is Some,
        ranges[k as int].0 == dense_cursor(ranges, target, k)->0,
        dense_cursor(ranges, target, (k + 1) as nat) == Some(
            (ranges[k as int].0 + ranges[k as int].1) as nat,
        ),
    decreases n - k,
{
    if k + 1 < n {
        lemma_dense_cursor_prefix(ranges, target, n, (k + 1) as nat);
    }
}

/// Record `i` lies in the range.
pub open spec fn range_holds(range: (u32, u32, bool), i: int) -> bool {
    range.0 <= i < range.0 + range.1
}

proof fn lemma_dense_cursor_covers(ranges: Seq<(u32, u32, bool)>, target: nat, n: nat, i: int)
    requires
        dense_cursor(ranges, target, n) is Some,
        0 <= i < dense_cursor(ranges, target, n)->0,
    ensures
        exists|c: int| 0 <= c < n && range_holds(#[trigger] ranges[c], i),
    decreases n,
{
    let prev = dense_cursor(ranges, target, (n - 1) as nat);
    if i < prev->0 {
        lemma_dense_cursor_covers(ranges, target, (n - 1) as nat, i);
        let c = choose|c: int| 0 <= c < n - 1 && range_holds(#[trigger] ranges[c], i);
        assert(0 <= c < n && range_holds(ranges[c], i));
    } else {
        assert(range_holds(ranges[n - 1], i));
    }
}

/// Pack ranges that tile a table give every record of it exactly one owning
/// pack.
pub proof fn law_dense_ranges_partition(ranges: Seq<(u32, u32, bool)>, target: nat, i: int)
    requires
        dense_cursor(ranges, target, ranges.len()) == Some(target),
        0 <= i < target,
    ensures
        exists|c: int| 0 <= c < ranges.len() && range_holds(#[trigger] ranges[c], i),
        forall|c: int, d: int|
            0 <= c < ranges.len() && 0 <= d < ranges.len() && range_holds(#[trigger] ranges[c], i)
                && range_holds(#[trigger] ranges[d], i) ==> c == d,
{
    lemma_dense_cursor_covers(ranges, target, ranges.len(), i);
    assert forall|c: int, d: int|
        0 <= c < ranges.len() && 0 <= d < ranges.len() && range_holds(#[trigger] ranges[c], i)
            && range_holds(#[trigger] ranges[d], i) implies c == d by {
        if c < d {
            lemma_dense_cursor_prefix(ranges, target, ranges.len(), d as nat);
            lemma_dense_cursor_bound(ranges, target, d as nat, c);
        } else if d < c {
            lemma_dense_cursor_prefix(ranges, target, ranges.len(), c as nat);
            lemma_dense_cursor_bound(ranges, target, c as nat, d);
        }
    }
}

/// An error of the pack-range check: an unavailable pack, a pack whose
/// range breaks the tiling where the packs before it tile a prefix, or
/// ranges that tile less than the whole table.
pub open spec fn pack_ranges_error(
    owner_label: Seq<char>,
    target_file: Seq<char>,
    ranges: Seq<(u32, u32, bool)>,
    target_count: u32,
    e: Seq<char>,
) -> bool {
    ||| exists|i: int|
        0 <= i < ranges.len() && #[trigger] dense_cursor(ranges, target_count as nat, i as nat)
            is Some && {
            ||| !ranges[i].2 && e == "Binary DB canonical generation contains unavailable "@
                + owner_label + " "@ + spec_decimal(i as nat) + "."@
            ||| ranges[i].2 && dense_range_refusal(
                owner_label,
                i as u32,
                target_file,
                ranges[i].0,
                ranges[i].1,
                target_count,
                dense_cursor(ranges, target_count as nat, i as nat)->0 as u32,
                e,
            )
        }
    ||| (dense_cursor(ranges, target_count as nat, ranges.len()) matches Some(covered) && covered
        != target_count && e == "Binary DB content closure "@ + owner_label + " ranges cover "@
        + spec_decimal(covered) + " "@ + target_file + " records, but the file contains "@
        + spec_decimal(target_count as nat) + "."@)
}

/// Checks the packs of a table in order: each must be available, and the
/// packs' ranges must tile the `target_count` records of `target_file`.
pub fn validate_pack_ranges(
    owner_label: &str,
    target_file: &str,
    ranges: &[(u32, u32, bool)],
    target_count: u32,
) -> (r: Result<(), String>)
    requires
        ranges@.len() <= u32::MAX,
    ensures
        r is Ok <==> pack_ranges_ok(ranges@, target_count as nat),
        r matches Err(e) ==> pack_ranges_error(owner_label@, target_file@, ranges@, target_count, e@),
{
    let ghost rs = ranges@;
    let mut expected_start: u32 = 0;
    let mut i: usize = 0;
    while i < ranges.len()
        invariant
            rs == ranges@,
            rs.len() <= u32::MAX,
            i <= rs.len(),
            forall|k: int| 0 <= k < i ==> (#[trigger] rs[k]).2,
            dense_cursor(rs, target_count as nat, i as nat) == Some(expected_start as nat),
        decreases rs.len() - i,
    {
        let (first, count, available) = ranges[i];
        if !available {
            let mut v = chars_of("Binary DB canonical generation contains unavailable ");
            push_str(&mut v, owner_label);
            push_str(&mut v, " ");
            push_decimal(&mut v, i as u64);
            push_str(&mut v, ".");
            let e = string_from_chars(&v);
            assert(dense_cursor(rs, target_count as nat, i as nat) is Some);
            return Err(e);
        }
        let ghost before = expected_start;
        match require_dense_range(
            owner_label,
            i as u32,
            target_file,
            first,
            count,
            target_count,
            &mut expected_start,
        ) {
            Ok(()) => {},
            Err(e) => {
                proof {
                    assert(dense_cursor(rs, target_count as nat, (i + 1) as nat) is None);
                    lemma_dense_cursor_none(rs, target_count as nat, (i + 1) as nat, rs.len());
                    assert(dense_cursor(rs, target_count as nat, i as nat) is Some);
                }
                return Err(e);
            },
        }
        assert(dense_cursor(rs, target_count as nat, (i + 1) as nat) == Some(
            expected_start as nat,
        ));
        i = i + 1;
    }
    require_dense_coverage(owner_label, target_file, expected_start, target_count)
}

fn object_pack_range_list(packs: &[BinaryObjectPackRecord]) -> (r: Vec<(u32, u32, bool)>)
    ensures
        r@ == object_pack_ranges(packs@),
{
    let mut out: Vec<(u32, u32, bool)> = Vec::new();
    let mut i: usize = 0;
    while i < packs.len()
        invariant
            i <= packs@.len(),
            out@.len() == i,
            forall|k: int| 0 <= k < i ==> out@[k] == #[trigger] object_pack_ranges(packs@)[k],
        decreases packs@.len() - i,
    {
        let p = &packs[i];
        out.push((p.first_member_index, p.member_count, !p.is_tombstone() && p.is_ready()));
        i = i + 1;
    }
    assert(out@ =~= object_pack_ranges(packs@));
    out
}

fn tree_pack_range_list(packs: &[BinaryTreePackRecord]) -> (r: Vec<(u32, u32, bool)>)
    ensures
        r@ == tree_pack_ranges(packs@),
{
    let mut out: Vec<(u32, u32, bool)> = Vec::new();
    let mut i: usize = 0;
    while i < packs.len()
        invariant
            i <= packs@.len(),
            out@.len() == i,
            forall|k: int| 0 <= k < i ==> out@[k] == #[trigger] tree_pack_ranges(packs@)[k],
        decreases packs@.len() - i,
    {
        let p = &packs[i];
        out.push((p.first_tree_index, p.tree_count, !p.is_tombstone() && p.is_ready()));
        i = i + 1;
    }
    assert(out@ =~= tree_pack_ranges(packs@));
    out
}

// ----- object pack members --------------------------------------------------------

/// A member of a canonical generation is live and names an existing pack,
/// blob and base blob.
pub open spec fn member_record_ok(
    m: BinaryObjectPackMemberRecord,
    pack_count: nat,
    blob_count: nat,
) -> bool {
    &&& !m.spec_is_tombstone()
    &&& m.pack_index < pack_count
    &&& m.blob_index < blob_count
    &&& plus_one_index(m.base_blob_index_plus1) matches Some(b) ==> b < blob_count
}

/// The message that a member's pointer names a record past its table.
pub open spec fn member_index_text(i: int, target: Seq<char>, index: u32, count: u32) -> Seq<char> {
    owner_prefix("object pack member"@, i as u32) + " references "@ + target + " index "@
        + spec_decimal(index as nat) + ", but only "@ + spec_decimal(count as nat)
        + " records exist."@
}

/// An error of the member check: a tombstoned member, or a member whose
/// pack, blob or base blob lies past its table.
pub open spec fn member_records_error(
    members: Seq<BinaryObjectPackMemberRecord>,
    pack_count: u32,
    blob_count: u32,
    e: Seq<char>,
) -> bool {
    exists|i: int|
        0 <= i < members.len() && {
            let m = #[trigger] members[i];
            ||| m.spec_is_tombstone() && e == canonical_text("tombstoned object pack member"@, i as nat)
            ||| m.pack_index >= pack_count && e == member_index_text(i, "object pack"@, m.pack_index, pack_count)
            ||| m.blob_index >= blob_count && e == member_index_text(i, "blob"@, m.blob_index, blob_count)
            ||| (plus_one_index(m.base_blob_index_plus1) matches Some(b) && b >= blob_count && e
                == member_index_text(i, "base blob"@, b, blob_count))
        }
}

/// Checks every object pack member record against the table sizes.
pub fn validate_member_records(
    members: &[BinaryObjectPackMemberRecord],
    pack_count: u32,
    blob_count: u32,
) -> (r: Result<(), String>)
    requires
        members@.len() <= u32::MAX,
    ensures
        r is Ok <==> forall|i: int|
            0 <= i < members@.len() ==> #[trigger] member_record_ok(
                members@[i],
                pack_count as nat,
                blob_count as nat,
            ),
        r matches Err(e) ==> member_records_error(members@, pack_count, blob_count, e@),
{
    let mut i: usize = 0;
    while i < members.len()
        invariant
            members@.len() <= u32::MAX,
            i <= members@.len(),
            forall|k: int|
                0 <= k < i ==> #[trigger] member_record_ok(
                    members@[k],
                    pack_count as nat,
                    blob_count as nat,
                ),
        decreases members@.len() - i,
    {
        let record = &members[i];
        let ghost ok = member_record_ok(members@[i as int], pack_count as nat, blob_count as nat);
        if record.is_tombstone() {
            assert(!ok);
            let e = canonical_message("tombstoned object pack member", i as u64);
            assert(members@[i as int].spec_is_tombstone());
            return Err(e);
        }
        if let Err(e) = require_index(
            "object pack member",
            i as u32,
            "object pack",
            record.pack_index,
            pack_count,
        ) {
            assert(!ok);
            assert(members@[i as int] == *record);
            return Err(e);
        }
        if let Err(e) = require_index("object pack member", i as u32, "blob", record.blob_index, blob_count) {
            assert(!ok);
            assert(members@[i as int] == *record);
            return Err(e);
        }
        match record.base_blob_index() {
            Some(b) => {
                if let Err(e) = require_index("object pack member", i as u32, "base blob", b, blob_count) {
                    assert(!ok);
                    assert(members@[i as int] == *record);
                    assert(plus_one_index(members@[i as int].base_blob_index_plus1) == Some(b));
                    return Err(e);
                }
            },
            None => {},
        }
        assert(ok);
        i = i + 1;
    }
    Ok(())
}

// ----- trees ---------------------------------------------------------------------

/// Scanning the ranges in order from `c`, the first that ends after record
/// `m` (`ranges.len()` when none does); `None` when the end of a range
/// reached by the scan overflows `u32`.
pub open spec fn owning_range_from(ranges: Seq<(u32, u32, bool)>, m: int, c: int) -> Option<int>
    decreases ranges.len() - c,
{
    if c >= ranges.len() {
        Some(c)
    } else if ranges[c].0 + ranges[c].1 > u32::MAX {
        None
    } else if m < ranges[c].0 + ranges[c].1 {
        Some(c)
    } else {
        owning_range_from(ranges, m, c + 1)
    }
}

proof fn lemma_owning_range_resume(ranges: Seq<(u32, u32, bool)>, a: int, b: int, d: int, c: int)
    requires
        0 <= d <= c,
        a <= b,
        owning_range_from(ranges, a, d) == Some(c),
    ensures
        owning_range_from(ranges, b, d) == owning_range_from(ranges, b, c),
    decreases c - d,
{
    if d < c && d < ranges.len() {
        lemma_owning_range_resume(ranges, a, b, d + 1, c);
    }
}

/// Tree `i` lies in the range of the first tree pack whose range ends after
/// it; the tree and that pack are live, and in a compact pack the tree sits
/// at its dense ordinal.
pub open spec fn tree_record_ok(
    packs: Seq<BinaryTreePackRecord>,
    trees: Seq<BinaryTreeRecord>,
    i: int,
) -> bool {
    match owning_range_from(tree_pack_ranges(packs), i, 0) {
        None => false,
        Some(c) => {
            &&& c < packs.len()
            &&& packs[c].first_tree_index <= i
            &&& !trees[i].spec_is_tombstone()
            &&& !packs[c].spec_is_tombstone()
            &&& !packs[c].spec_has_sparse_physical_ordinals() ==> trees[i].pack_entry_ordinal == i
                - packs[c].first_tree_index
        },
    }
}

/// The message that refuses tree `i`, where `c` is the tree pack the check
/// stopped at: the tree pack whose range end overflows, a tree past every
/// range, a tree before its pack, a tombstoned tree, a live tree in a
/// tombstoned pack, or a tree off its compact ordinal.
pub open spec fn tree_record_refusal(
    packs: Seq<BinaryTreePackRecord>,
    trees: Seq<BinaryTreeRecord>,
    i: int,
    c: int,
    e: Seq<char>,
) -> bool {
    let rs = tree_pack_ranges(packs);
    let tree = "Binary DB content closure tree "@ + spec_decimal(i as nat);
    ||| {
        &&& owning_range_from(rs, i, 0) is None
        &&& 0 <= c < rs.len()
        &&& rs[c].0 + rs[c].1 > u32::MAX
        &&& e == owner_prefix("tree pack"@, c as u32) + " range overflows u32."@
    }
    ||| {
        &&& owning_range_from(rs, i, 0) == Some(c)
        &&& c >= packs.len()
        &&& e == tree + " has no authoritative tree-pack range."@
    }
    ||| {
        &&& owning_range_from(rs, i, 0) == Some(c)
        &&& c < packs.len()
        &&& i < packs[c].first_tree_index
        &&& e == tree + " precedes tree pack "@ + spec_decimal(c as nat) + "."@
    }
    ||| {
        &&& owning_range_from(rs, i, 0) == Some(c)
        &&& c < packs.len()
        &&& packs[c].first_tree_index <= i
        &&& trees[i].spec_is_tombstone()
        &&& e == canonical_text("tombstoned tree"@, i as nat)
    }
    ||| {
        &&& owning_range_from(rs, i, 0) == Some(c)
        &&& c < packs.len()
        &&& packs[c].first_tree_index <= i
        &&& !trees[i].spec_is_tombstone()
        &&& packs[c].spec_is_tombstone()
        &&& e == "Binary DB content closure tombstoned tree pack "@ + spec_decimal(c as nat)
            + " contains live tree "@ + spec_decimal(i as nat) + "."@
    }
    ||| {
        &&& owning_range_from(rs, i, 0) == Some(c)
        &&& c < packs.len()
        &&& packs[c].first_tree_index <= i
        &&& !trees[i].spec_is_tombstone()
        &&& !packs[c].spec_is_tombstone()
        &&& !packs[c].spec_has_sparse_physical_ordinals()
        &&& trees[i].pack_entry_ordinal != i - packs[c].first_tree_index
        &&& e == tree + " has compact pack ordinal "@ + spec_decimal(
            trees[i].pack_entry_ordinal as nat,
        ) + ", expected "@ + spec_decimal((i - packs[c].first_tree_index) as nat) + "."@
    }
}

/// An error of the tree-record check: the refusal of one of the trees.
pub open spec fn tree_records_error(
    packs: Seq<BinaryTreePackRecord>,
    trees: Seq<BinaryTreeRecord>,
    e: Seq<char>,
) -> bool {
    exists|i: int, c: int| 0 <= i < trees.len() && #[trigger] tree_record_refusal(packs, trees, i, c, e)
}

fn tree_message(tree_index: u32, tail: &str) -> (s: String)
    ensures
        s@ == "Binary DB content closure tree "@ + spec_decimal(tree_index as nat) + tail@,
{
    let mut v = chars_of("Binary DB content closure tree ");
    push_decimal(&mut v, tree_index as u64);
    push_str(&mut v, tail);
    string_from_chars(&v)
}

/// Checks every tree record against the tree pack that owns it.
pub fn validate_tree_records(packs: &[BinaryTreePackRecord], trees: &[BinaryTreeRecord]) -> (r: Result<
    (),
    String,
>)
    requires
        packs@.len() <= u32::MAX,
        trees@.len() <= u32::MAX,
    ensures
        r is Ok <==> forall|i: int| 0 <= i < trees@.len() ==> #[trigger] tree_record_ok(packs@, trees@, i),
        r matches Err(e) ==> tree_records_error(packs@, trees@, e@),
{
    let ranges = tree_pack_range_list(packs);
    let ghost rs = ranges@;
    let ghost ps = packs@;
    let ghost ts = trees@;
    let mut cursor: usize = 0;
    let mut i: usize = 0;
    while i < trees.len()
        invariant
            rs == ranges@,
            rs == tree_pack_ranges(ps),
            ps == packs@,
            ts == trees@,
            ps.len() <= u32::MAX,
            ts.len() <= u32::MAX,
            i <= ts.len(),
            cursor <= ps.len(),
            i == 0 ==> cursor == 0,
            i > 0 ==> owning_range_from(rs, i - 1, 0) == Some(cursor as int),
            forall|a: int| 0 <= a < i ==> #[trigger] tree_record_ok(ps, ts, a),
        decreases ts.len() - i,
    {
        proof {
            if i > 0 {
                lemma_owning_range_resume(rs, i - 1, i as int, 0, cursor as int);
            }
        }
        let mut found = false;
        while !found && cursor < ranges.len()
            invariant
                rs == ranges@,
                rs == tree_pack_ranges(ps),
                ps == packs@,
                ts == trees@,
                ps.len() <= u32::MAX,
                cursor <= ps.len(),
                i < ts.len(),
                owning_range_from(rs, i as int, 0) == owning_range_from(rs, i as int, cursor as int),
                found ==> cursor < ps.len() && owning_range_from(rs, i as int, cursor as int) == Some(
                    cursor as int,
                ),
            decreases ps.len() - cursor + (if found {
                0int
            } else {
                1int
            }),
        {
            let (first, count, _) = ranges[cursor];
            let end = match checked_range_end("tree pack", cursor as u32, first, count) {
                Ok(end) => end,
                Err(e) => {
                    assert(!tree_record_ok(ps, ts, i as int));
                    assert(tree_record_refusal(ps, ts, i as int, cursor as int, e@));
                    return Err(e);
                },
            };
            if (i as u64) < (end as u64) {
                found = true;
            } else {
                cursor = cursor + 1;
            }
        }
        assert(owning_range_from(rs, i as int, 0) == Some(cursor as int));
        if cursor >= packs.len() {
            assert(!tree_record_ok(ps, ts, i as int));
            let e = tree_message(i as u32, " has no authoritative tree-pack range.");
            assert(tree_record_refusal(ps, ts, i as int, cursor as int, e@));
            return Err(e);
        }
        let pack = &packs[cursor];
        if (i as u32) < pack.first_tree_index {
            assert(!tree_record_ok(ps, ts, i as int));
            let mut v = chars_of("Binary DB content closure tree ");
            push_decimal(&mut v, i as u64);
            push_str(&mut v, " precedes tree pack ");
            push_decimal(&mut v, cursor as u64);
            push_str(&mut v, ".");
            let e = string_from_chars(&v);
            assert(tree_record_refusal(ps, ts, i as int, cursor as int, e@));
            return Err(e);
        }
        let expected_ordinal = i as u32 - pack.first_tree_index;
        let record = &trees[i];
        if record.is_tombstone() {
            assert(!tree_record_ok(ps, ts, i as int));
            let e = canonical_message("tombstoned tree", i as u64);
            assert(tree_record_refusal(ps, ts, i as int, cursor as int, e@));
            return Err(e);
        }
        if pack.is_tombstone() && !record.is_tombstone() {
            assert(!tree_record_ok(ps, ts, i as int));
            let mut v = chars_of("Binary DB content closure tombstoned tree pack ");
            push_decimal(&mut v, cursor as u64);
            push_str(&mut v, " contains live tree ");
            push_decimal(&mut v, i as u64);
            push_str(&mut v, ".");
            let e = string_from_chars(&v);
            assert(tree_record_refusal(ps, ts, i as int, cursor as int, e@));
            return Err(e);
        }
        if !pack.has_sparse_physical_ordinals() && record.pack_entry_ordinal != expected_ordinal {
            assert(!tree_record_ok(ps, ts, i as int));
            let mut v = chars_of("Binary DB content closure tree ");
            push_decimal(&mut v, i as u64);
            push_str(&mut v, " has compact pack ordinal ");
            push_decimal(&mut v, record.pack_entry_ordinal as u64);
            push_str(&mut v, ", expected ");
            push_decimal(&mut v, expected_ordinal as u64);
            push_str(&mut v, ".");
            let e = string_from_chars(&v);
            assert(tree_record_refusal(ps, ts, i as int, cursor as int, e@));
            return Err(e);
        }
        assert(tree_record_ok(ps, ts, i as int));
        i = i + 1;
    }
    Ok(())
}

// ----- tree entries ----------------------------------------------------------------

/// The lower-cased ids of the blobs.
pub open spec fn blob_id_keys(blobs: Seq<BinaryBlobRecord>) -> Seq<Seq<char>> {
    Seq::new(blobs.len(), |i: int| ascii_lower_seq(spec_blob_id(blobs[i].sha256@)))
}

/// The lower-cased ids of the trees.
pub open spec fn tree_id_keys(trees: Seq<BinaryTreeRecord>) -> Seq<Seq<char>> {
    Seq::new(trees.len(), |i: int| ascii_lower_seq(spec_tree_id(trees[i].tree_hash80@)))
}

/// A tree entry names a blob or a tree, and its target, compared without
/// ASCII case, is the id of a record of that kind.
pub open spec fn entry_target_ok(
    e: BinaryTreeEntryView,
    blob_ids: Seq<Seq<char>>,
    tree_ids: Seq<Seq<char>>,
) -> bool {
    let target = ascii_lower_seq(e.target_id@);
    ||| e.entry_type@ == "blob"@ && blob_ids.contains(target)
    ||| e.entry_type@ == "tree"@ && tree_ids.contains(target)
}

/// The entries of one tree have distinct names and each names live content.
pub open spec fn tree_entries_ok(
    entries: Seq<BinaryTreeEntryView>,
    blob_ids: Seq<Seq<char>>,
    tree_ids: Seq<Seq<char>>,
) -> bool {
    &&& forall|a: int, b: int|
        0 <= a < b < entries.len() ==> (#[trigger] entries[a]).entry_name@ != (
        #[trigger] entries[b]).entry_name@
    &&& forall|a: int| 0 <= a < entries.len() ==> entry_target_ok(#[trigger] entries[a], blob_ids, tree_ids)
}

/// Number of entries in the first `n` lists.
pub open spec fn entries_total(lists: Seq<Vec<BinaryTreeEntryView>>, n: nat) -> nat
    decreases n,
{
    if n == 0 {
        0
    } else {
        entries_total(lists, (n - 1) as nat) + lists[n - 1]@.len()
    }
}

proof fn lemma_entries_total_monotone(lists: Seq<Vec<BinaryTreeEntryView>>, a: nat, b: nat)
    requires
        a <= b,
    ensures
        entries_total(lists, a) <= entries_total(lists, b),
    decreases b - a,
{
    if a < b {
        lemma_entries_total_monotone(lists, a, (b - 1) as nat);
    }
}

fn id_keys_of_blobs(blobs: &[BinaryBlobRecord]) -> (r: Vec<Vec<char>>)
    ensures
        r@.len() == blobs@.len(),
        forall|i: int| 0 <= i < r@.len() ==> (#[trigger] r@[i])@ == spec_blob_id(blobs@[i].sha256@),
{
    let mut out: Vec<Vec<char>> = Vec::new();
    let mut i: usize = 0;
    while i < blobs.len()
        invariant
            i <= blobs@.len(),
            out@.len() == i,
            forall|k: int| 0 <= k < i ==> (#[trigger] out@[k])@ == spec_blob_id(blobs@[k].sha256@),
        decreases blobs@.len() - i,
    {
        let id = blob_id_from_sha256(&blobs[i].sha256);
        out.push(chars_of(id.as_str()));
        i = i + 1;
    }
    out
}

fn id_keys_of_trees(trees: &[BinaryTreeRecord]) -> (r: Vec<Vec<char>>)
    ensures
        r@.len() == trees@.len(),
        forall|i: int| 0 <= i < r@.len() ==> (#[trigger] r@[i])@ == spec_tree_id(trees@[i].tree_hash80@),
{
    let mut out: Vec<Vec<char>> = Vec::new();
    let mut i: usize = 0;
    while i < trees.len()
        invariant
            i <= trees@.len(),
            out@.len() == i,
            forall|k: int| 0 <= k < i ==> (#[trigger] out@[k])@ == spec_tree_id(trees@[k].tree_hash80@),
        decreases trees@.len() - i,
    {
        let id = tree_id_from_hash80(&trees[i].tree_hash80);
        out.push(chars_of(id.as_str()));
        i = i + 1;
    }
    out
}

/// Whether one of the ids equals `target` without regard to ASCII case.
fn contains_id(ids: &Vec<Vec<char>>, target: &Vec<char>) -> (r: bool)
    ensures
        r == exists|i: int|
            0 <= i < ids@.len() && ascii_lower_seq((#[trigger] ids@[i])@) == ascii_lower_seq(target@),
{
    let mut i: usize = 0;
    while i < ids.len()
        invariant
            i <= ids@.len(),
            forall|k: int|
                0 <= k < i ==> ascii_lower_seq((#[trigger] ids@[k])@) != ascii_lower_seq(target@),
        decreases ids@.len() - i,
    {
        if crate::text::chars_eq_ignore_ascii_case(&ids[i], target) {
            return true;
        }
        i = i + 1;
    }
    false
}

/// An error of the tree-entry check: a count of entry lists other than the
/// count of trees, a duplicate entry name, an unsupported entry type, an
/// entry whose target is not a live blob or tree, or a total past `u64`.
pub open spec fn tree_entries_error(
    trees: Seq<BinaryTreeRecord>,
    blobs: Seq<BinaryBlobRecord>,
    lists: Seq<Vec<BinaryTreeEntryView>>,
    e: Seq<char>,
) -> bool {
    let tree = |t: int| "Binary DB content closure tree "@ + spec_decimal(t as nat);
    ||| lists.len() != trees.len() && e == "Binary DB content closure read "@ + spec_decimal(
        lists.len(),
    ) + " tree entry lists, expected "@ + spec_decimal(trees.len()) + "."@
    ||| exists|t: int, a: int, b: int|
        0 <= t < lists.len() && 0 <= a < b < lists[t]@.len() && (#[trigger] lists[t]@[a]).entry_name@
            == (#[trigger] lists[t]@[b]).entry_name@ && e == tree(t) + " contains duplicate entry name "@
            + lists[t]@[b].entry_name@ + "."@
    ||| exists|t: int, k: int|
        0 <= t < lists.len() && 0 <= k < lists[t]@.len() && {
            let en = #[trigger] lists[t]@[k];
            ||| en.entry_type@ != "blob"@ && en.entry_type@ != "tree"@ && e == tree(t)
                + " contains unsupported entry type "@ + en.entry_type@ + "."@
            ||| (en.entry_type@ == "blob"@ || en.entry_type@ == "tree"@) && !entry_target_ok(
                en,
                blob_id_keys(blobs),
                tree_id_keys(trees),
            ) && e == tree(t) + " entry "@ + en.entry_name@ + " references missing active "@
                + en.entry_type@ + " "@ + en.target_id@ + "."@
        }
    ||| entries_total(lists, lists.len()) > u64::MAX && e
        == "Binary DB content closure tree entry count overflows u64."@
}

/// Checks the entries of every tree, in tree order, and counts them.
/// Succeeds exactly when there is one entry list per tree, every list meets
/// the entry rules, and the total fits in `u64`.
pub fn validate_tree_entries(
    trees: &[BinaryTreeRecord],
    blobs: &[BinaryBlobRecord],
    tree_entries: &[Vec<BinaryTreeEntryView>],
) -> (r: Result<u64, String>)
    ensures
        r is Ok <==> {
            &&& tree_entries@.len() == trees@.len()
            &&& forall|t: int|
                0 <= t < tree_entries@.len() ==> #[trigger] tree_entries_ok(
                    tree_entries@[t]@,
                    blob_id_keys(blobs@),
                    tree_id_keys(trees@),
                )
            &&& entries_total(tree_entries@, tree_entries@.len()) <= u64::MAX
        },
        r matches Ok(n) ==> n == entries_total(tree_entries@, tree_entries@.len()),
        r matches Err(e) ==> tree_entries_error(trees@, blobs@, tree_entries@, e@),
{
    let ghost lists = tree_entries@;
    let ghost bk = blob_id_keys(blobs@);
    let ghost tk = tree_id_keys(trees@);
    if tree_entries.len() != trees.len() {
        let mut v = chars_of("Binary DB content closure read ");
        push_decimal(&mut v, tree_entries.len() as u64);
        push_str(&mut v, " tree entry lists, expected ");
        push_decimal(&mut v, trees.len() as u64);
        push_str(&mut v, ".");
        let message = string_from_chars(&v);
        return Err(message);
    }
    let blob_ids = id_keys_of_blobs(blobs);
    let tree_ids = id_keys_of_trees(trees);
    let mut total: u64 = 0;
    let mut t: usize = 0;
    while t < tree_entries.len()
        invariant
            lists == tree_entries@,
            bk == blob_id_keys(blobs@),
            tk == tree_id_keys(trees@),
            lists.len() == trees@.len(),
            blob_ids@.len() == blobs@.len(),
            forall|i: int|
                0 <= i < blob_ids@.len() ==> (#[trigger] blob_ids@[i])@ == spec_blob_id(blobs@[i].sha256@),
            tree_ids@.len() == trees@.len(),
            forall|i: int|
                0 <= i < tree_ids@.len() ==> (#[trigger] tree_ids@[i])@ == spec_tree_id(
                    trees@[i].tree_hash80@,
                ),
            t <= lists.len(),
            total == entries_total(lists, t as nat),
            forall|k: int| 0 <= k < t ==> #[trigger] tree_entries_ok(lists[k]@, bk, tk),
        decreases lists.len() - t,
    {
        let entries = &tree_entries[t];
        let ghost es = entries@;
        let mut e: usize = 0;
        while e < entries.len()
            invariant
                es == entries@,
                lists == tree_entries@,
                t < lists.len(),
                es == lists[t as int]@,
                bk == blob_id_keys(blobs@),
                tk == tree_id_keys(trees@),
                blob_ids@.len() == blobs@.len(),
                forall|i: int|
                    0 <= i < blob_ids@.len() ==> (#[trigger] blob_ids@[i])@ == spec_blob_id(
                        blobs@[i].sha256@,
                    ),
                tree_ids@.len() == trees@.len(),
                forall|i: int|
                    0 <= i < tree_ids@.len() ==> (#[trigger] tree_ids@[i])@ == spec_tree_id(
                        trees@[i].tree_hash80@,
                    ),
                e <= es.len(),
                forall|a: int, b: int|
                    0 <= a < b < e ==> (#[trigger] es[a]).entry_name@ != (#[trigger] es[b]).entry_name@,
                forall|a: int| 0 <= a < e ==> entry_target_ok(#[trigger] es[a], bk, tk),
            decreases es.len() - e,
        {
            let entry = &entries[e];
            let mut b: usize = 0;
            while b < e
                invariant
                    es == entries@,
                    lists == tree_entries@,
                    t < lists.len(),
                    es == lists[t as int]@,
                    bk == blob_id_keys(blobs@),
                    tk == tree_id_keys(trees@),
                    e < es.len(),
                    *entry == es[e as int],
                    b <= e,
                    forall|a: int| 0 <= a < b ==> (#[trigger] es[a]).entry_name@ != es[e as int].entry_name@,
                decreases e - b,
            {
                if crate::text::str_eq(entries[b].entry_name.as_str(), entry.entry_name.as_str()) {
                    proof {
                        assert(es[b as int].entry_name@ == es[e as int].entry_name@);
                        assert(!tree_entries_ok(lists[t as int]@, bk, tk));
                    }
                    let mut v = chars_of("Binary DB content closure tree ");
                    push_decimal(&mut v, t as u64);
                    push_str(&mut v, " contains duplicate entry name ");
                    push_str(&mut v, entry.entry_name.as_str());
                    push_str(&mut v, ".");
                    let message = string_from_chars(&v);
                    proof {
                        assert(lists[t as int]@[b as int] == es[b as int]);
                        assert(lists[t as int]@[e as int] == es[e as int]);
                        assert(0 <= b < e < lists[t as int]@.len());
                    }
                    return Err(message);
                }
                assert(es[b as int].entry_name@ != es[e as int].entry_name@);
                b = b + 1;
            }
            let target = chars_of(entry.target_id.as_str());
            let is_blob = crate::text::str_eq(entry.entry_type.as_str(), "blob");
            let is_tree = crate::text::str_eq(entry.entry_type.as_str(), "tree");
            let exists = if is_blob {
                contains_id(&blob_ids, &target)
            } else if is_tree {
                contains_id(&tree_ids, &target)
            } else {
                proof {
                    assert(!entry_target_ok(es[e as int], bk, tk));
                    assert(!tree_entries_ok(lists[t as int]@, bk, tk));
                }
                let mut v = chars_of("Binary DB content closure tree ");
                push_decimal(&mut v, t as u64);
                push_str(&mut v, " contains unsupported entry type ");
                push_str(&mut v, entry.entry_type.as_str());
                push_str(&mut v, ".");
                let message = string_from_chars(&v);
                proof {
                    assert(lists[t as int]@[e as int] == es[e as int]);
                }
                return Err(message);
            };
            proof {
                let key = ascii_lower_seq(target@);
                reveal_strlit("blob");
                reveal_strlit("tree");
                assert("blob"@[0] != "tree"@[0]);
                if is_blob {
                    if exists {
                        let i = choose|i: int|
                            0 <= i < blob_ids@.len() && ascii_lower_seq((#[trigger] blob_ids@[i])@)
                                == key;
                        assert(bk[i] == key);
                    } else {
                        assert forall|i: int| 0 <= i < bk.len() implies bk[i] != key by {
                            assert(ascii_lower_seq(blob_ids@[i]@) != key);
                        }
                    }
                } else if is_tree {
                    if exists {
                        let i = choose|i: int|
                            0 <= i < tree_ids@.len() && ascii_lower_seq((#[trigger] tree_ids@[i])@)
                                == key;
                        assert(tk[i] == key);
                    } else {
                        assert forall|i: int| 0 <= i < tk.len() implies tk[i] != key by {
                            assert(ascii_lower_seq(tree_ids@[i]@) != key);
                        }
                    }
                }
            }
            if !exists {
                proof {
                    assert(!entry_target_ok(es[e as int], bk, tk));
                    assert(!tree_entries_ok(lists[t as int]@, bk, tk));
                }
                let mut v = chars_of("Binary DB content closure tree ");
                push_decimal(&mut v, t as u64);
                push_str(&mut v, " entry ");
                push_str(&mut v, entry.entry_name.as_str());
                push_str(&mut v, " references missing active ");
                push_str(&mut v, entry.entry_type.as_str());
                push_str(&mut v, " ");
                push_str(&mut v, entry.target_id.as_str());
                push_str(&mut v, ".");
                let message = string_from_chars(&v);
                proof {
                    assert(lists[t as int]@[e as int] == es[e as int]);
                }
                return Err(message);
            }
            e = e + 1;
        }
        match total.checked_add(entries.len() as u64) {
            Some(next) => {
                total = next;
            },
            None => {
                proof {
                    lemma_entries_total_monotone(lists, (t + 1) as nat, lists.len());
                    assert(entries_total(lists, lists.len()) > u64::MAX);
                }
                return Err(owned("Binary DB content closure tree entry count overflows u64."));
            },
        }
        assert(tree_entries_ok(lists[t as int]@, bk, tk));
        t = t + 1;
    }
    Ok(total)
}

// ----- snapshots -----------------------------------------------------------------

/// Size of the snapshot payload file; an absent file holds nothing.
pub open spec fn payload_size(payload: Option<Seq<u8>>) -> nat {
    match payload {
        Some(p) => p.len(),
        None => 0,
    }
}

/// The root of a live snapshot: an available tree pack, an ordinal inside
/// it, and a live tree at that place.
pub open spec fn root_tree_ok(
    s: BinarySnapshotRecord,
    tp: u32,
    packs: Seq<BinaryTreePackRecord>,
    trees: Seq<BinaryTreeRecord>,
) -> bool {
    &&& tp < packs.len()
    &&& !packs[tp as int].spec_is_tombstone()
    &&& s.root_entry_ordinal < packs[tp as int].tree_count
    &&& packs[tp as int].first_tree_index + s.root_entry_ordinal <= u32::MAX
    &&& packs[tp as int].first_tree_index + s.root_entry_ordinal < trees.len()
    &&& !trees[packs[tp as int].first_tree_index + s.root_entry_ordinal].spec_is_tombstone()
}

/// The record rules of a snapshot: known history flags, an existing primary
/// parent, a payload slice after the header and inside the payload file,
/// and a valid root when it is live and has one.
pub open spec fn snapshot_record_ok(
    s: BinarySnapshotRecord,
    snapshot_count: nat,
    payload_bytes: nat,
    packs: Seq<BinaryTreePackRecord>,
    trees: Seq<BinaryTreeRecord>,
) -> bool {
    &&& s.history_flags & 0b1111_1110 == 0
    &&& plus_one_index(s.parent_snapshot_index_plus1) matches Some(p) ==> p < snapshot_count
    &&& s.payload_len > 0 ==> s.payload_offset + s.payload_len <= u64::MAX && s.payload_offset >= 4
        && s.payload_offset + s.payload_len <= payload_bytes
    &&& !s.spec_is_tombstone() ==> (plus_one_index(s.root_tree_pack_index_plus1) matches Some(tp)
        ==> root_tree_ok(s, tp, packs, trees))
}

/// The additional parents a snapshot's payload names, when the payload
/// decodes under the record's flags and carries a message exactly when the
/// record says so; a tombstone without payload names none.
pub open spec fn payload_parents(s: BinarySnapshotRecord, payload: Option<Seq<u8>>) -> Option<Seq<u32>> {
    if s.spec_is_tombstone() && s.payload_len == 0 {
        Some(Seq::empty())
    } else {
        match payload {
            None => None,
            Some(p) => {
                let raw = if s.payload_len == 0 {
                    Seq::empty()
                } else {
                    p.subrange(s.payload_offset as int, s.payload_offset + s.payload_len)
                };
                match spec_decode_payload(
                    raw,
                    s.spec_has_line_name_payload(),
                    s.spec_has_additional_parents(),
                ) {
                    None => None,
                    Some(d) => if s.spec_has_message() == (d.1.len() > 0) {
                        Some(d.0)
                    } else {
                        None
                    },
                }
            },
        }
    }
}

/// Snapshot `i` meets the record rules and its payload names its parents.
pub open spec fn snapshot_ok(
    snaps: Seq<BinarySnapshotRecord>,
    i: int,
    payload: Option<Seq<u8>>,
    packs: Seq<BinaryTreePackRecord>,
    trees: Seq<BinaryTreeRecord>,
) -> bool {
    &&& snapshot_record_ok(snaps[i], snaps.len(), payload_size(payload), packs, trees)
    &&& payload_parents(snaps[i], payload) is Some
}

/// The additional parents of every snapshot.
pub open spec fn payload_parent_lists(snaps: Seq<BinarySnapshotRecord>, payload: Option<Seq<u8>>) -> Seq<
    Seq<u32>,
> {
    Seq::new(snaps.len(), |i: int| payload_parents(snaps[i], payload)->0)
}

fn snapshot_text(index: usize, tail: &str) -> (s: String)
    ensures
        s@ == "Binary DB content closure snapshot "@ + spec_decimal(index as nat) + tail@,
{
    let mut v = chars_of("Binary DB content closure snapshot ");
    push_decimal(&mut v, index as u64);
    push_str(&mut v, tail);
    string_from_chars(&v)
}

fn snapshot_text_n(index: usize, middle: &str, n: u64, tail: &str) -> (s: String)
    ensures
        s@ == "Binary DB content closure snapshot "@ + spec_decimal(index as nat) + middle@
            + spec_decimal(n as nat) + tail@,
{
    let mut v = chars_of("Binary DB content closure snapshot ");
    push_decimal(&mut v, index as u64);
    push_str(&mut v, middle);
    push_decimal(&mut v, n);
    push_str(&mut v, tail);
    string_from_chars(&v)
}

/// The message that refuses the payload of snapshot `i`: no payload file, a
/// payload slice that does not decode (with the decoder's own reason), or a
/// message flag that disagrees with the payload.
pub open spec fn payload_refusal(i: int, s: BinarySnapshotRecord, payload: Option<Seq<u8>>, e: Seq<char>) -> bool {
    let snapshot = "Binary DB content closure snapshot "@ + spec_decimal(i as nat);
    &&& payload_parents(s, payload) is None
    &&& {
        ||| payload is None && e == snapshot + " has no Snapshot payload authority."@
        ||| payload is Some && ("Binary DB content closure cannot decode snapshot payload "@
            + spec_decimal(i as nat) + ": "@).is_prefix_of(e)
        ||| payload is Some && e == snapshot + " message flag disagrees with its payload."@
    }
}

/// The additional parents of one snapshot, read from its payload slice.
fn read_payload_parents(index: usize, s: &BinarySnapshotRecord, payload: &Option<Vec<u8>>) -> (r: Result<
    Vec<u32>,
    String,
>)
    requires
        s.payload_len > 0 ==> s.payload_offset + s.payload_len <= payload_size(file_view(*payload)),
    ensures
        r is Ok <==> payload_parents(*s, file_view(*payload)) is Some,
        r matches Ok(v) ==> v@ == payload_parents(*s, file_view(*payload))->0,
        r matches Err(e) ==> payload_refusal(index as int, *s, file_view(*payload), e@),
{
    if s.is_tombstone() && s.payload_len == 0 {
        return Ok(Vec::new());
    }
    let bytes = match payload {
        Some(bytes) => bytes,
        None => {
            return Err(snapshot_text(index, " has no Snapshot payload authority."));
        },
    };
    let total = bytes.len();
    let raw: &[u8] = if s.payload_len == 0 {
        &[]
    } else {
        assert(s.payload_offset + s.payload_len <= total);
        let start = s.payload_offset as usize;
        vstd::slice::slice_subrange(bytes.as_slice(), start, start + s.payload_len as usize)
    };
    assert(raw@ == (if s.payload_len == 0 {
        Seq::<u8>::empty()
    } else {
        bytes@.subrange(s.payload_offset as int, s.payload_offset + s.payload_len)
    }));
    let decoded = match BinarySnapshotCodec::<1>::decode_payload(
        raw,
        s.has_line_name_payload(),
        s.has_additional_parents(),
    ) {
        Ok(p) => p,
        Err(e) => {
            let mut v = chars_of("Binary DB content closure cannot decode snapshot payload ");
            push_decimal(&mut v, index as u64);
            push_str(&mut v, ": ");
            push_str(&mut v, e.message.as_str());
            let message = string_from_chars(&v);
            proof {
                let pre = "Binary DB content closure cannot decode snapshot payload "@ + spec_decimal(
                    index as nat,
                ) + ": "@;
                assert(message@ == pre + e.message@);
                assert(message@.subrange(0, pre.len() as int) =~= pre);
            }
            return Err(message);
        },
    };
    if s.has_message() != decoded.message.is_some() {
        return Err(snapshot_text(index, " message flag disagrees with its payload."));
    }
    Ok(decoded.additional_parent_snapshot_indices)
}

/// The message that refuses the root of live snapshot `i` in tree pack `tp`.
pub open spec fn root_refusal(
    i: int,
    s: BinarySnapshotRecord,
    tp: u32,
    packs: Seq<BinaryTreePackRecord>,
    trees: Seq<BinaryTreeRecord>,
    e: Seq<char>,
) -> bool {
    let snapshot = "Binary DB content closure snapshot "@ + spec_decimal(i as nat);
    ||| tp >= packs.len() && e == owner_prefix("snapshot"@, i as u32) + " references "@
        + "root tree pack"@ + " index "@ + spec_decimal(tp as nat) + ", but only "@ + spec_decimal(
        packs.len(),
    ) + " records exist."@
    ||| tp < packs.len() && {
        let pack = packs[tp as int];
        let index = pack.first_tree_index + s.root_entry_ordinal;
        ||| pack.spec_is_tombstone() && e == snapshot + " references tombstoned root tree pack "@
            + spec_decimal(tp as nat) + "."@
        ||| s.root_entry_ordinal >= pack.tree_count && e == snapshot + " root ordinal "@
            + spec_decimal(s.root_entry_ordinal as nat) + " is outside tree pack "@ + spec_decimal(
            tp as nat,
        ) + " count "@ + spec_decimal(pack.tree_count as nat) + "."@
        ||| index > u32::MAX && e == snapshot + " root tree index overflows u32."@
        ||| index <= u32::MAX && index >= trees.len() && e == snapshot + " root tree "@
            + spec_decimal(index as nat) + " is missing."@
        ||| index < trees.len() && trees[index].spec_is_tombstone() && e == snapshot
            + " references tombstoned root tree "@ + spec_decimal(index as nat) + "."@
    }
}

/// The message that refuses snapshot `i`: unknown history flags, a primary
/// parent past the table, a payload slice out of range or that does not
/// decode, or a root that is not a live tree.
pub open spec fn snapshot_refusal(
    snaps: Seq<BinarySnapshotRecord>,
    i: int,
    payload: Option<Seq<u8>>,
    packs: Seq<BinaryTreePackRecord>,
    trees: Seq<BinaryTreeRecord>,
    e: Seq<char>,
) -> bool {
    let s = snaps[i];
    let end = s.payload_offset + s.payload_len;
    ||| s.history_flags & 0b1111_1110 != 0 && e == "Binary DB content closure snapshot "@
        + spec_decimal(i as nat) + " has unknown history flags 0x"@ + spec_hex_lower(
        seq![s.history_flags],
    ) + "."@
    ||| (plus_one_index(s.parent_snapshot_index_plus1) matches Some(p) && p >= snaps.len() && e
        == owner_prefix("snapshot"@, i as u32) + " references "@ + "parent snapshot"@ + " index "@
        + spec_decimal(p as nat) + ", but only "@ + spec_decimal(snaps.len()) + " records exist."@)
    ||| s.payload_len > 0 && end > u64::MAX && e == owner_prefix("snapshot"@, i as u32)
        + " payload range overflows u64."@
    ||| s.payload_len > 0 && end <= u64::MAX && !(s.payload_offset >= 4 && end <= payload_size(
        payload,
    )) && e == owner_prefix("snapshot"@, i as u32) + " requires "@ + "snapshot_payload.bin"@
        + " bytes ["@ + spec_decimal(s.payload_offset as nat) + ".."@ + spec_decimal(end as nat)
        + "), but the file contains "@ + spec_decimal(payload_size(payload)) + " bytes."@
    ||| payload_refusal(i, s, payload, e)
    ||| !s.spec_is_tombstone() && (plus_one_index(s.root_tree_pack_index_plus1) matches Some(tp)
        && root_refusal(i, s, tp, packs, trees, e))
}

/// An error of the snapshot check: the refusal of one of the snapshots.
pub open spec fn snapshot_records_error(
    snaps: Seq<BinarySnapshotRecord>,
    payload: Option<Seq<u8>>,
    packs: Seq<BinaryTreePackRecord>,
    trees: Seq<BinaryTreeRecord>,
    e: Seq<char>,
) -> bool {
    exists|i: int| 0 <= i < snaps.len() && #[trigger] snapshot_refusal(snaps, i, payload, packs, trees, e)
}

/// Checks every snapshot record and collects the additional parents that
/// its payload names. Succeeds exactly when every snapshot meets the record
/// rules and its payload decodes consistently with it.
#[verifier::spinoff_prover]
#[verifier::rlimit(40)]
pub fn validate_snapshot_records(
    snaps: &[BinarySnapshotRecord],
    payload: &Option<Vec<u8>>,
    packs: &[BinaryTreePackRecord],
    trees: &[BinaryTreeRecord],
) -> (r: Result<Vec<Vec<u32>>, String>)
    requires
        snaps@.len() <= u32::MAX,
        packs@.len() <= u32::MAX,
    ensures
        r is Ok <==> forall|i: int|
            0 <= i < snaps@.len() ==> #[trigger] snapshot_ok(
                snaps@,
                i,
                file_view(*payload),
                packs@,
                trees@,
            ),
        r matches Ok(adds) ==> parent_lists_view(adds@) == payload_parent_lists(
            snaps@,
            file_view(*payload),
        ),
        r matches Err(e) ==> snapshot_records_error(snaps@, file_view(*payload), packs@, trees@, e@),
{
    let ghost ss = snaps@;
    let ghost pf = file_view(*payload);
    let ghost ps = packs@;
    let ghost ts = trees@;
    let count = snaps.len() as u32;
    let payload_bytes: u64 = match payload {
        Some(p) => p.len() as u64,
        None => 0,
    };
    let mut adds: Vec<Vec<u32>> = Vec::new();
    let mut i: usize = 0;
    while i < snaps.len()
        invariant
            ss == snaps@,
            pf == file_view(*payload),
            ps == packs@,
            ts == trees@,
            ss.len() <= u32::MAX,
            ps.len() <= u32::MAX,
            count == ss.len(),
            payload_bytes == payload_size(pf),
            i <= ss.len(),
            adds@.len() == i,
            forall|k: int| 0 <= k < i ==> #[trigger] snapshot_ok(ss, k, pf, ps, ts),
            forall|k: int|
                0 <= k < i ==> (#[trigger] adds@[k])@ == payload_parents(ss[k], pf)->0,
        decreases ss.len() - i,
    {
        let record = &snaps[i];
        let ghost ok = snapshot_ok(ss, i as int, pf, ps, ts);
        assert(!0b0000_0001u8 == 0b1111_1110u8) by (bit_vector);
        if record.history_flags & !BinarySnapshotRecord::KNOWN_FLAGS != 0 {
            assert(!ok);
            let flags = [record.history_flags];
            let mut v = chars_of("Binary DB content closure snapshot ");
            push_decimal(&mut v, i as u64);
            push_str(&mut v, " has unknown history flags 0x");
            let h = crate::text::hex_lower_chars(flags.as_slice());
            crate::text::push_all(&mut v, &h);
            push_str(&mut v, ".");
            let message = string_from_chars(&v);
            assert(flags@ =~= seq![record.history_flags]);
            assert(snapshot_records_error(ss, pf, ps, ts, message@)) by {
                assert(snapshot_refusal(ss, i as int, pf, ps, ts, message@));
            }
            assert(snapshot_refusal(snaps@, i as int, file_view(*payload), packs@, trees@, message@));
            return Err(message);
        }
        match record.parent_snapshot_index() {
            Some(p) => {
                if let Err(e) = require_index("snapshot", i as u32, "parent snapshot", p, count) {
                    assert(!ok);
                    let message = e;
                    assert(snapshot_records_error(ss, pf, ps, ts, message@)) by {
                assert(snapshot_refusal(ss, i as int, pf, ps, ts, message@));
            }
                    assert(snapshot_refusal(snaps@, i as int, file_view(*payload), packs@, trees@, message@));
                    return Err(message);
                }
            },
            None => {},
        }
        if record.payload_len > 0 {
            if let Err(e) = require_payload_range(
                "snapshot",
                i as u32,
                "snapshot_payload.bin",
                record.payload_offset,
                record.payload_len as u64,
                payload_bytes,
            ) {
                assert(!ok);
                let message = e;
                assert(snapshot_records_error(ss, pf, ps, ts, message@)) by {
                assert(snapshot_refusal(ss, i as int, pf, ps, ts, message@));
            }
                return Err(message);
            }
        }
        let additional = match read_payload_parents(i, record, payload) {
            Ok(a) => a,
            Err(e) => {
                assert(!ok);
                let message = e;
                assert(snapshot_records_error(ss, pf, ps, ts, message@)) by {
                assert(snapshot_refusal(ss, i as int, pf, ps, ts, message@));
            }
                return Err(message);
            },
        };
        if !record.is_tombstone() {
            match record.root_tree_pack_index() {
                Some(tp) => {
                    if let Err(e) = require_index(
                        "snapshot",
                        i as u32,
                        "root tree pack",
                        tp,
                        packs.len() as u32,
                    ) {
                        assert(!ok);
                        let message = e;
                        assert(snapshot_records_error(ss, pf, ps, ts, message@)) by {
                assert(snapshot_refusal(ss, i as int, pf, ps, ts, message@));
            }
                        return Err(message);
                    }
                    let pack = &packs[tp as usize];
                    if pack.is_tombstone() {
                        assert(!ok);
                        let message = snapshot_text_n(i, " references tombstoned root tree pack ", tp as u64, ".");
                        assert(snapshot_records_error(ss, pf, ps, ts, message@)) by {
                assert(snapshot_refusal(ss, i as int, pf, ps, ts, message@));
            }
                        return Err(message);
                    }
                    if record.root_entry_ordinal >= pack.tree_count {
                        assert(!ok);
                        let mut v = chars_of("Binary DB content closure snapshot ");
                        push_decimal(&mut v, i as u64);
                        push_str(&mut v, " root ordinal ");
                        push_decimal(&mut v, record.root_entry_ordinal as u64);
                        push_str(&mut v, " is outside tree pack ");
                        push_decimal(&mut v, tp as u64);
                        push_str(&mut v, " count ");
                        push_decimal(&mut v, pack.tree_count as u64);
                        push_str(&mut v, ".");
                        let message = string_from_chars(&v);
                        assert(snapshot_records_error(ss, pf, ps, ts, message@)) by {
                assert(snapshot_refusal(ss, i as int, pf, ps, ts, message@));
            }
                        return Err(message);
                    }
                    let tree_index = match pack.first_tree_index.checked_add(record.root_entry_ordinal) {
                        Some(t) => t,
                        None => {
                            assert(!ok);
                            let message = snapshot_text(i, " root tree index overflows u32.");
                            assert(snapshot_records_error(ss, pf, ps, ts, message@)) by {
                assert(snapshot_refusal(ss, i as int, pf, ps, ts, message@));
            }
                            return Err(message);
                        },
                    };
                    if tree_index as usize >= trees.len() {
                        assert(!ok);
                        let message = snapshot_text_n(i, " root tree ", tree_index as u64, " is missing.");
                        assert(snapshot_records_error(ss, pf, ps, ts, message@)) by {
                assert(snapshot_refusal(ss, i as int, pf, ps, ts, message@));
            }
                        return Err(message);
                    }
                    if trees[tree_index as usize].is_tombstone() {
                        assert(!ok);
                        let message = snapshot_text_n(i, " references tombstoned root tree ", tree_index as u64, ".");
                        assert(snapshot_records_error(ss, pf, ps, ts, message@)) by {
                assert(snapshot_refusal(ss, i as int, pf, ps, ts, message@));
            }
                        return Err(message);
                    }
                },
                None => {},
            }
        }
        assert(ok);
        adds.push(additional);
        i = i + 1;
    }
    assert(parent_lists_view(adds@) =~= payload_parent_lists(ss, pf));
    Ok(adds)
}

// ----- identity indexes ------------------------------------------------------------

/// An identity index exists exactly when its table does, and then it is the
/// index rebuilt from the table, byte for byte.
pub open spec fn identity_index_ok(
    kind: ContentIdentityKind,
    record_file: Option<Seq<u8>>,
    index_file: Option<Seq<u8>>,
) -> bool {
    match record_file {
        None => index_file is None,
        Some(rf) => match index_file {
            None => false,
            Some(ix) => spec_rebuilt_index(kind, rf, plan_kind_row(kind).2 as nat) == Some(ix),
        },
    }
}

/// Every identity index of the generation matches its table.
pub open spec fn identity_indexes_ok(files: ContentAuthorityFiles) -> bool {
    &&& identity_index_ok(
        ContentIdentityKind::Blob,
        file_view(files.blob),
        file_view(files.blob_id_index),
    )
    &&& identity_index_ok(
        ContentIdentityKind::Snapshot,
        file_view(files.snapshot),
        file_view(files.snapshot_id_index),
    )
    &&& identity_index_ok(
        ContentIdentityKind::ObjectPack,
        file_view(files.object_pack),
        file_view(files.object_pack_id_index),
    )
    &&& identity_index_ok(
        ContentIdentityKind::Tree,
        file_view(files.tree),
        file_view(files.tree_id_index),
    )
    &&& identity_index_ok(
        ContentIdentityKind::TreePack,
        file_view(files.tree_pack),
        file_view(files.tree_pack_id_index),
    )
}

/// The message that refuses one identity index of the generation: an index
/// without its table, a table without its index, or an index that does not
/// match its table.
pub open spec fn identity_check_refusal(
    plan: ContentIdentityIndexPlan,
    record_file: Option<Seq<u8>>,
    index_file: Option<Seq<u8>>,
    e: Seq<char>,
) -> bool {
    match record_file {
        None => index_file is Some && e == "Binary DB content index "@ + plan.index_name@
            + " exists without authoritative "@ + plan.record_name@,
        Some(rf) => match index_file {
            None => e == "Binary DB content index "@ + plan.index_name@ + " is missing or unreadable."@,
            Some(ix) => identity_index_refusal(plan, rf, ix, e),
        },
    }
}

/// The refusal of the identity index of table kind `kind`.
pub open spec fn identity_kind_refusal(
    kind: ContentIdentityKind,
    record_file: Option<Seq<u8>>,
    index_file: Option<Seq<u8>>,
    e: Seq<char>,
) -> bool {
    exists|p: ContentIdentityIndexPlan|
        plan_ok(p) && p.kind == kind && #[trigger] identity_check_refusal(p, record_file, index_file, e)
}

/// An error of the identity-index check: the refusal of one of the indexes.
pub open spec fn identity_indexes_error(files: ContentAuthorityFiles, e: Seq<char>) -> bool {
    ||| identity_kind_refusal(
        ContentIdentityKind::Blob,
        file_view(files.blob),
        file_view(files.blob_id_index),
        e,
    )
    ||| identity_kind_refusal(
        ContentIdentityKind::Snapshot,
        file_view(files.snapshot),
        file_view(files.snapshot_id_index),
        e,
    )
    ||| identity_kind_refusal(
        ContentIdentityKind::ObjectPack,
        file_view(files.object_pack),
        file_view(files.object_pack_id_index),
        e,
    )
    ||| identity_kind_refusal(
        ContentIdentityKind::Tree,
        file_view(files.tree),
        file_view(files.tree_id_index),
        e,
    )
    ||| identity_kind_refusal(
        ContentIdentityKind::TreePack,
        file_view(files.tree_pack),
        file_view(files.tree_pack_id_index),
        e,
    )
}

fn validate_identity_index(
    plan: &ContentIdentityIndexPlan,
    record_file: &Option<Vec<u8>>,
    index_file: &Option<Vec<u8>>,
) -> (r: Result<(), String>)
    requires
        plan_ok(*plan),
    ensures
        r is Ok <==> identity_index_ok(plan.kind, file_view(*record_file), file_view(*index_file)),
        r matches Err(e) ==> identity_check_refusal(*plan, file_view(*record_file), file_view(*index_file), e@),
{
    match record_file {
        None => match index_file {
            None => Ok(()),
            Some(_) => {
                let mut v = chars_of("Binary DB content index ");
                push_str(&mut v, plan.index_name);
                push_str(&mut v, " exists without authoritative ");
                push_str(&mut v, plan.record_name);
                Err(string_from_chars(&v))
            },
        },
        Some(records) => match index_file {
            None => {
                let mut v = chars_of("Binary DB content index ");
                push_str(&mut v, plan.index_name);
                push_str(&mut v, " is missing or unreadable.");
                Err(string_from_chars(&v))
            },
            Some(index) => validate_content_identity_index(plan, records.as_slice(), index.as_slice()),
        },
    }
}

/// Checks every identity index of a generation against its table. Succeeds
/// exactly when each index exists exactly when its table does and then
/// matches the index rebuilt from the table.
pub fn validate_content_identity_indexes(files: &ContentAuthorityFiles) -> (r: Result<(), String>)
    ensures
        r is Ok <==> identity_indexes_ok(*files),
        r matches Err(e) ==> identity_indexes_error(*files, e@),
{
    let plans = crate::generation::indexes::content_identity_index_plans();
    proof {
        assert(plan_ok(plans@[0]) && plan_ok(plans@[1]) && plan_ok(plans@[2]) && plan_ok(plans@[3])
            && plan_ok(plans@[4]));
    }
    if let Err(e) = validate_identity_index(&plans[0], &files.blob, &files.blob_id_index) {
        assert(identity_check_refusal(plans@[0], file_view(files.blob), file_view(files.blob_id_index), e@));
        return Err(e);
    }
    if let Err(e) = validate_identity_index(&plans[1], &files.snapshot, &files.snapshot_id_index) {
        assert(identity_check_refusal(plans@[1], file_view(files.snapshot), file_view(files.snapshot_id_index), e@));
        return Err(e);
    }
    if let Err(e) = validate_identity_index(&plans[2], &files.object_pack, &files.object_pack_id_index) {
        assert(identity_check_refusal(plans@[2], file_view(files.object_pack), file_view(files.object_pack_id_index), e@));
        return Err(e);
    }
    if let Err(e) = validate_identity_index(&plans[3], &files.tree, &files.tree_id_index) {
        assert(identity_check_refusal(plans@[3], file_view(files.tree), file_view(files.tree_id_index), e@));
        return Err(e);
    }
    if let Err(e) = validate_identity_index(&plans[4], &files.tree_pack, &files.tree_pack_id_index) {
        assert(identity_check_refusal(plans@[4], file_view(files.tree_pack), file_view(files.tree_pack_id_index), e@));
        return Err(e);
    }
    Ok(())
}

// ----- the whole closure --------------------------------------------------------

/// Every table file holds whole records.
pub open spec fn closure_counts_ok(files: ContentAuthorityFiles) -> bool {
    &&& spec_file_record_count(file_view(files.blob), 64) is Some
    &&& spec_file_record_count(file_view(files.snapshot), 88) is Some
    &&& spec_file_record_count(file_view(files.object_pack), 32) is Some
    &&& spec_file_record_count(file_view(files.object_pack_member), 16) is Some
    &&& spec_file_record_count(file_view(files.tree_pack), 32) is Some
    &&& spec_file_record_count(file_view(files.tree), 20) is Some
}

/// The content closure rules over the decoded tables, with `entries` the
/// entry lists of the trees in tree order.
pub open spec fn closure_rules_ok(
    files: ContentAuthorityFiles,
    entries: Seq<Vec<BinaryTreeEntryView>>,
) -> bool {
    let nb = spec_file_record_count(file_view(files.blob), 64)->0;
    let ns = spec_file_record_count(file_view(files.snapshot), 88)->0;
    let np = spec_file_record_count(file_view(files.object_pack), 32)->0;
    let nm = spec_file_record_count(file_view(files.object_pack_member), 16)->0;
    let ntp = spec_file_record_count(file_view(files.tree_pack), 32)->0;
    let nt = spec_file_record_count(file_view(files.tree), 20)->0;
    let blobs = blob_table(file_view(files.blob), nb);
    let packs = object_pack_table(file_view(files.object_pack), np);
    let members = member_table(file_view(files.object_pack_member), nm);
    let tree_packs = tree_pack_table(file_view(files.tree_pack), ntp);
    let trees = tree_table(file_view(files.tree), nt);
    let snaps = snapshot_table(file_view(files.snapshot), ns);
    let payload = file_view(files.snapshot_payload);
    &&& forall|i: int| 0 <= i < nb ==> #[trigger] blob_record_ok(blobs[i], nm)
    &&& pack_ranges_ok(object_pack_ranges(packs), nm)
    &&& forall|i: int| 0 <= i < nm ==> #[trigger] member_record_ok(members[i], np, nb)
    &&& forall|m: int|
        0 <= m < nm ==> #[trigger] member_placed_ok(packs, members, blobs, member_pointers(blobs), m)
    &&& forall|b: int|
        0 <= b < nb ==> #[trigger] blob_pointer_ok(members, blobs, member_pointers(blobs), b)
    &&& pack_ranges_ok(tree_pack_ranges(tree_packs), nt)
    &&& forall|i: int| 0 <= i < nt ==> #[trigger] tree_record_ok(tree_packs, trees, i)
    &&& entries.len() == nt
    &&& forall|t: int|
        0 <= t < nt ==> #[trigger] tree_entries_ok(entries[t]@, blob_id_keys(blobs), tree_id_keys(trees))
    &&& entries_total(entries, entries.len()) <= u64::MAX
    &&& ns > 0 ==> payload is Some
    &&& snapshot_table_decodes(file_view(files.snapshot), ns)
    &&& forall|i: int| 0 <= i < ns ==> #[trigger] snapshot_ok(snaps, i, payload, tree_packs, trees)
    &&& forall|i: int|
        0 <= i < ns ==> #[trigger] snapshot_parents_ok(snaps, payload_parent_lists(snaps, payload), i)
    &&& identity_indexes_ok(files)
}

/// An error of the content closure check: the refusal of a record file's
/// size, or an error of one of the checks on the decoded tables, each with
/// the message of a rule that fails.
pub open spec fn closure_error(
    files: ContentAuthorityFiles,
    entries: Seq<Vec<BinaryTreeEntryView>>,
    e: Seq<char>,
) -> bool {
    let nb = spec_file_record_count(file_view(files.blob), 64)->0;
    let ns = spec_file_record_count(file_view(files.snapshot), 88)->0;
    let np = spec_file_record_count(file_view(files.object_pack), 32)->0;
    let nm = spec_file_record_count(file_view(files.object_pack_member), 16)->0;
    let ntp = spec_file_record_count(file_view(files.tree_pack), 32)->0;
    let nt = spec_file_record_count(file_view(files.tree), 20)->0;
    let blobs = blob_table(file_view(files.blob), nb);
    let packs = object_pack_table(file_view(files.object_pack), np);
    let members = member_table(file_view(files.object_pack_member), nm);
    let tree_packs = tree_pack_table(file_view(files.tree_pack), ntp);
    let trees = tree_table(file_view(files.tree), nt);
    let snaps = snapshot_table(file_view(files.snapshot), ns);
    let payload = file_view(files.snapshot_payload);
    ||| count_refusal("blob.bin"@, file_view(files.blob), 64, e)
    ||| count_refusal("snapshot.bin"@, file_view(files.snapshot), 88, e)
    ||| count_refusal("object_pack.bin"@, file_view(files.object_pack), 32, e)
    ||| count_refusal("object_pack_member.bin"@, file_view(files.object_pack_member), 16, e)
    ||| count_refusal("tree_pack.bin"@, file_view(files.tree_pack), 32, e)
    ||| count_refusal("tree.bin"@, file_view(files.tree), 20, e)
    ||| blob_records_error(blobs, nm as u32, e)
    ||| pack_ranges_error(
        "object pack"@,
        "object_pack_member.bin"@,
        object_pack_ranges(packs),
        nm as u32,
        e,
    )
    ||| member_records_error(members, np as u32, nb as u32, e)
    ||| backreference_error(packs, members, blobs, member_pointers(blobs), e)
    ||| pack_ranges_error("tree pack"@, "tree.bin"@, tree_pack_ranges(tree_packs), nt as u32, e)
    ||| tree_records_error(tree_packs, trees, e)
    ||| tree_entries_error(trees, blobs, entries, e)
    ||| ns > 0 && payload is None && e
        == "failed to open Snapshot payload authority snapshot_payload.bin."@
    ||| snapshot_decode_error(file_view(files.snapshot), ns, e)
    ||| snapshot_records_error(snaps, payload, tree_packs, trees, e)
    ||| parent_authority_error(snaps, payload_parent_lists(snaps, payload), e)
    ||| identity_indexes_error(files, e)
}

/// The outcome of the content closure check: the record counts and the
/// number of tree entries when every rule holds, `None` otherwise.
pub open spec fn spec_content_closure(
    files: ContentAuthorityFiles,
    entries: Seq<Vec<BinaryTreeEntryView>>,
) -> Option<RepositoryContentClosureSummary> {
    if closure_counts_ok(files) && closure_rules_ok(files, entries) {
        Some(
            RepositoryContentClosureSummary {
                blob_count: spec_file_record_count(file_view(files.blob), 64)->0 as u32,
                snapshot_count: spec_file_record_count(file_view(files.snapshot), 88)->0 as u32,
                object_pack_count: spec_file_record_count(file_view(files.object_pack), 32)->0 as u32,
                object_pack_member_count: spec_file_record_count(
                    file_view(files.object_pack_member),
                    16,
                )->0 as u32,
                tree_pack_count: spec_file_record_count(file_view(files.tree_pack), 32)->0 as u32,
                tree_count: spec_file_record_count(file_view(files.tree), 20)->0 as u32,
                tree_entry_count: entries_total(entries, entries.len()) as u64,
            },
        )
    } else {
        None
    }
}

/// Checks the content closure of a repository generation, given its
/// authority files and the entry lists of its trees in tree order (as read
/// from the tree packs). Succeeds exactly when every closure rule holds,
/// with the record counts and the number of tree entries.
pub fn validate_repository_content_closure(
    files: &ContentAuthorityFiles,
    tree_entries: &[Vec<BinaryTreeEntryView>],
) -> (r: Result<RepositoryContentClosureSummary, String>)
    ensures
        r is Ok <==> spec_content_closure(*files, tree_entries@) is Some,
        r matches Ok(s) ==> s == spec_content_closure(*files, tree_entries@)->0,
        r matches Err(e) ==> closure_error(*files, tree_entries@, e@),
{
    let ghost fs = *files;
    let ghost es = tree_entries@;
    let blob_count = file_record_count("blob.bin", &files.blob, 64)?;
    let snapshot_count = file_record_count("snapshot.bin", &files.snapshot, 88)?;
    let pack_count = file_record_count("object_pack.bin", &files.object_pack, 32)?;
    let member_count = file_record_count("object_pack_member.bin", &files.object_pack_member, 16)?;
    let tree_pack_count = file_record_count("tree_pack.bin", &files.tree_pack, 32)?;
    let tree_count = file_record_count("tree.bin", &files.tree, 20)?;
    assert(closure_counts_ok(fs));

    let blobs = decode_blob_table(&files.blob, blob_count);
    let pointers = validate_blob_records(blobs.as_slice(), member_count)?;

    let packs = decode_object_pack_table(&files.object_pack, pack_count);
    let pack_ranges = object_pack_range_list(packs.as_slice());
    validate_pack_ranges("object pack", "object_pack_member.bin", pack_ranges.as_slice(), member_count)?;

    let members = decode_member_table(&files.object_pack_member, member_count);
    validate_member_records(members.as_slice(), pack_count, blob_count)?;
    proof {
        assert forall|m: int| 0 <= m < members@.len() implies (#[trigger] members@[m]).pack_index
            < packs@.len() && members@[m].blob_index < blobs@.len() && (plus_one_index(
            members@[m].base_blob_index_plus1,
        ) matches Some(b) ==> b < blobs@.len()) by {
            assert(member_record_ok(members@[m], pack_count as nat, blob_count as nat));
        }
    }
    validate_object_member_backreferences(
        packs.as_slice(),
        members.as_slice(),
        blobs.as_slice(),
        pointers.as_slice(),
    )?;

    let tree_packs = decode_tree_pack_table(&files.tree_pack, tree_pack_count);
    let tree_ranges = tree_pack_range_list(tree_packs.as_slice());
    validate_pack_ranges("tree pack", "tree.bin", tree_ranges.as_slice(), tree_count)?;

    let trees = decode_tree_table(&files.tree, tree_count);
    validate_tree_records(tree_packs.as_slice(), trees.as_slice())?;
    let tree_entry_count = validate_tree_entries(trees.as_slice(), blobs.as_slice(), tree_entries)?;

    if snapshot_count > 0 && files.snapshot_payload.is_none() {
        return Err(owned("failed to open Snapshot payload authority snapshot_payload.bin."));
    }
    let snaps = decode_snapshot_table(&files.snapshot, snapshot_count)?;
    let additional = validate_snapshot_records(
        snaps.as_slice(),
        &files.snapshot_payload,
        tree_packs.as_slice(),
        trees.as_slice(),
    )?;
    proof {
        assert(parent_lists_view(additional@).len() == additional@.len());
        assert(additional@.len() == snaps@.len());
    }
    if let Err(e) = validate_snapshot_parent_authority(snaps.as_slice(), additional.as_slice()) {
        proof {
            let adds = payload_parent_lists(snaps@, file_view(files.snapshot_payload));
            assert(parent_authority_error(snaps@, adds, e@));
            let i = choose|i: int|
                0 <= i < snaps@.len() && !#[trigger] snapshot_parents_ok(
                    snaps@,
                    parent_lists_view(additional@),
                    i,
                );
            assert(!snapshot_parents_ok(snaps@, adds, i));
        }
        return Err(e);
    }
    validate_content_identity_indexes(files)?;

    assert(closure_rules_ok(fs, es));
    Ok(
        RepositoryContentClosureSummary {
            blob_count,
            snapshot_count,
            object_pack_count: pack_count,
            object_pack_member_count: member_count,
            tree_pack_count,
            tree_count,
            tree_entry_count,
        },
    )
}

} // verus!
