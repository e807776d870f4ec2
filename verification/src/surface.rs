//! What the read surface of the content Binary DB decides from what it has
//! read: the persisted layout it accepts, the file ids it reads at that
//! layout, the views it builds from decoded records, the order in which it
//! tries index candidates, and the checks on snapshot roots and parents.

use vstd::prelude::*;

use crate::binary_db::{BinaryFileId, BinaryIndexId, BinaryPayloadFileId};
use crate::error::{BinaryDbError, BinaryDbErrorKind, StoreResult};
use crate::ids::{blob_id_from_sha256, spec_blob_id, spec_tree_id, tree_id_from_hash80};
use crate::read::{BinaryBlobView, BinaryTreePackView, BinaryTreeView};
use crate::schema::records::{
    plus_one_index, BinaryBlobRecord, BinarySnapshotKind, BinaryTreeRecord,
};
use crate::text::{
    cat2, cat3, chars_of, decimal_chars, hex_lower, owned, push_all, push_str, spec_decimal,
    spec_hex_lower, string_from_chars, text_with_number,
};

verus! {

/// The one persisted content layout this library reads.
pub const CONTENT_BINARY_LAYOUT_ID: u32 = 1;

// ----- layouts and file ids ---------------------------------------------------------

/// The message of the refusal of persisted layout `layout` for `label` files.
pub open spec fn unsupported_layout_message(layout: u32, label: Seq<char>) -> Seq<char> {
    "unsupported persisted Binary DB "@ + label + " layout: "@ + spec_decimal(layout as nat)
        + "; supported layout is 1"@
}

/// Accepts the supported content layout and refuses any other.
pub fn require_supported_content_layout(layout: u32, label: &str) -> (r: StoreResult<()>)
    ensures
        r is Ok <==> layout == CONTENT_BINARY_LAYOUT_ID,
        r matches Err(e) ==> e.kind == BinaryDbErrorKind::LayoutMismatch && e.message@
            == unsupported_layout_message(layout, label@),
{
    if layout == CONTENT_BINARY_LAYOUT_ID {
        Ok(())
    } else {
        let head = cat3("unsupported persisted Binary DB ", label, " layout: ");
        let message = text_with_number(head.as_str(), layout as u64, "; supported layout is 1");
        Err(BinaryDbError::new(BinaryDbErrorKind::LayoutMismatch, message))
    }
}

/// The layout of a content file from the outcome of looking it up: `None`
/// when the file is missing, the lookup's other errors as they are, and a
/// found layout only when it is the supported one.
pub fn persisted_content_layout(lookup: StoreResult<u32>, label: &str) -> (r: StoreResult<Option<u32>>)
    ensures
        match lookup {
            Err(e) => if e.kind == BinaryDbErrorKind::MissingData {
                r == Ok::<Option<u32>, BinaryDbError>(None)
            } else {
                r matches Err(f) && f.kind == e.kind && f.message@ == e.message@
            },
            Ok(layout) => if layout == CONTENT_BINARY_LAYOUT_ID {
                r == Ok::<Option<u32>, BinaryDbError>(Some(layout))
            } else {
                r matches Err(f) && f.kind == BinaryDbErrorKind::LayoutMismatch && f.message@
                    == unsupported_layout_message(layout, label@)
            },
        },
{
    let layout = match lookup {
        Ok(layout) => layout,
        Err(error) => {
            return match error.kind {
                BinaryDbErrorKind::MissingData => Ok(None),
                _ => Err(error),
            };
        },
    };
    match require_supported_content_layout(layout, label) {
        Ok(()) => Ok(Some(layout)),
        Err(e) => Err(e),
    }
}

/// The layout of a content file that must exist.
pub fn required_content_layout(lookup: StoreResult<u32>, path: &str, label: &str) -> (r: StoreResult<u32>)
    ensures
        match lookup {
            Err(e) => if e.kind == BinaryDbErrorKind::MissingData {
                r matches Err(f) && f.kind == BinaryDbErrorKind::MissingData && f.message@
                    == "Binary DB "@ + label@ + " file "@ + path@ + " is missing"@
            } else {
                r matches Err(f) && f.kind == e.kind && f.message@ == e.message@
            },
            Ok(layout) => if layout == CONTENT_BINARY_LAYOUT_ID {
                r == Ok::<u32, BinaryDbError>(layout)
            } else {
                r matches Err(f) && f.kind == BinaryDbErrorKind::LayoutMismatch && f.message@
                    == unsupported_layout_message(layout, label@)
            },
        },
{
    match persisted_content_layout(lookup, label) {
        Ok(Some(layout)) => Ok(layout),
        Ok(None) => {
            let mut v = chars_of("Binary DB ");
            push_str(&mut v, label);
            push_str(&mut v, " file ");
            push_str(&mut v, path);
            push_str(&mut v, " is missing");
            Err(BinaryDbError::new(BinaryDbErrorKind::MissingData, string_from_chars(&v)))
        },
        Err(e) => Err(e),
    }
}

/// The record file `path` at a supported layout.
pub fn content_record_file(path: &str, record_size: u32, layout: u32, label: &str) -> (r: StoreResult<BinaryFileId>)
    ensures
        match r {
            Ok(f) => layout == CONTENT_BINARY_LAYOUT_ID && f.path@ == path@ && f.layout_id == layout
                && f.record_size == record_size,
            Err(e) => layout != CONTENT_BINARY_LAYOUT_ID && e.kind == BinaryDbErrorKind::LayoutMismatch
                && e.message@ == unsupported_layout_message(layout, label@),
        },
{
    match require_supported_content_layout(layout, label) {
        Ok(()) => Ok(BinaryFileId::new(path, layout, record_size)),
        Err(e) => Err(e),
    }
}

/// The index `path` at a supported layout; `fixed` gives the key size and
/// whether stored record numbers are one more than the record index.
pub fn content_index(path: &str, layout: u32, label: &str, fixed: Option<(u32, bool)>) -> (r: StoreResult<BinaryIndexId>)
    ensures
        match r {
            Ok(i) => layout == CONTENT_BINARY_LAYOUT_ID && i.path@ == path@ && i.layout_id == layout
                && match fixed {
                Some((key_size, plus_one)) => i.fixed_key_size == Some(key_size) && i.plus_one
                    == plus_one,
                None => i.fixed_key_size is None && !i.plus_one,
            },
            Err(e) => layout != CONTENT_BINARY_LAYOUT_ID && e.kind == BinaryDbErrorKind::LayoutMismatch
                && e.message@ == unsupported_layout_message(layout, label@),
        },
{
    match require_supported_content_layout(layout, label) {
        Ok(()) => Ok(
            match fixed {
                Some((key_size, plus_one)) => BinaryIndexId::new_fixed(path, layout, key_size, plus_one),
                None => BinaryIndexId::new(path, layout),
            },
        ),
        Err(e) => Err(e),
    }
}

/// The payload file `path` at a supported layout.
pub fn content_payload(path: &str, layout: u32, label: &str) -> (r: StoreResult<BinaryPayloadFileId>)
    ensures
        match r {
            Ok(f) => layout == CONTENT_BINARY_LAYOUT_ID && f.path@ == path@ && f.layout_id == layout,
            Err(e) => layout != CONTENT_BINARY_LAYOUT_ID && e.kind == BinaryDbErrorKind::LayoutMismatch
                && e.message@ == unsupported_layout_message(layout, label@),
        },
{
    match require_supported_content_layout(layout, label) {
        Ok(()) => Ok(BinaryPayloadFileId::new(path, layout)),
        Err(e) => Err(e),
    }
}

// ----- views of decoded records ----------------------------------------------------

/// The view of blob record `blob_index`.
pub fn blob_view_from_record(blob_index: u32, record: BinaryBlobRecord) -> (v: BinaryBlobView)
    ensures
        v.blob_index == blob_index,
        v.record == record,
        v.blob_id@ == spec_blob_id(record.sha256@),
        v.sha256@ == spec_hex_lower(record.sha256@),
        v.size_bytes == record.size_bytes,
        v.pack_member_index == plus_one_index(record.pack_member_index_plus1),
{
    let blob_id = blob_id_from_sha256(&record.sha256);
    let sha256 = hex_lower(record.sha256.as_slice());
    let size_bytes = record.size_bytes;
    let pack_member_index = record.pack_member_index();
    BinaryBlobView { blob_index, record, blob_id, sha256, size_bytes, pack_member_index }
}

/// The view of tree record `tree_index`, given the id of the tree pack that
/// holds it, if any.
pub fn tree_view_from_record(tree_index: u32, record: BinaryTreeRecord, tree_pack_id: Option<String>) -> (v: BinaryTreeView)
    ensures
        v.tree_index == tree_index,
        v.record == record,
        v.tree_id@ == spec_tree_id(record.tree_hash80@),
        v.tree_pack_id == tree_pack_id,
{
    let tree_id = tree_id_from_hash80(&record.tree_hash80);
    BinaryTreeView { tree_index, record, tree_id, tree_pack_id }
}

/// The name of a snapshot kind; a reserved kind is refused.
pub fn snapshot_kind_name(kind: BinarySnapshotKind) -> (r: StoreResult<String>)
    ensures
        kind is Line ==> r is Ok && r->Ok_0@ == "line"@,
        kind is Stash ==> r is Ok && r->Ok_0@ == "stash"@,
        kind is Reserved ==> r is Err && r->Err_0.kind == BinaryDbErrorKind::Invalid
            && r->Err_0.message@ == "unsupported snapshot kind: "@ + spec_decimal(kind->Reserved_0 as nat),
{
    match kind {
        BinarySnapshotKind::Line => Ok(owned("line")),
        BinarySnapshotKind::Stash => Ok(owned("stash")),
        BinarySnapshotKind::Reserved(value) => {
            proof {
                reveal_strlit("");
            }
            let message = text_with_number("unsupported snapshot kind: ", value as u64, "");
            Err(BinaryDbError::new(BinaryDbErrorKind::Invalid, message))
        },
    }
}

/// The tree record index of a snapshot's root: entry `root_entry_ordinal`
/// of the root tree pack, which must hold that many trees.
pub fn snapshot_root_tree_index(root_entry_ordinal: u32, pack: &BinaryTreePackView) -> (r: StoreResult<u32>)
    ensures
        root_entry_ordinal >= pack.record.tree_count ==> (r matches Err(e) && e.kind
            == BinaryDbErrorKind::Invalid && e.message@ == "snapshot root tree ordinal "@
            + spec_decimal(root_entry_ordinal as nat) + " is outside tree pack "@ + pack.pack_id@
            + " count "@ + spec_decimal(pack.record.tree_count as nat)),
        root_entry_ordinal < pack.record.tree_count && pack.record.first_tree_index
            + root_entry_ordinal > u32::MAX ==> (r matches Err(e) && e.kind
            == BinaryDbErrorKind::Invalid && e.message@ == "snapshot root tree index overflow"@),
        root_entry_ordinal < pack.record.tree_count && pack.record.first_tree_index
            + root_entry_ordinal <= u32::MAX ==> r == Ok::<u32, BinaryDbError>(
            (pack.record.first_tree_index + root_entry_ordinal) as u32,
        ),
{
    if root_entry_ordinal >= pack.record.tree_count {
        let mut v = chars_of("snapshot root tree ordinal ");
        let ordinal = decimal_chars(root_entry_ordinal as u64);
        push_all(&mut v, &ordinal);
        push_str(&mut v, " is outside tree pack ");
        push_str(&mut v, pack.pack_id.as_str());
        push_str(&mut v, " count ");
        let count = decimal_chars(pack.record.tree_count as u64);
        push_all(&mut v, &count);
        return Err(BinaryDbError::new(BinaryDbErrorKind::Invalid, string_from_chars(&v)));
    }
    match pack.record.first_tree_index.checked_add(root_entry_ordinal) {
        Some(index) => Ok(index),
        None => Err(
            BinaryDbError::new(
                BinaryDbErrorKind::Invalid,
                owned("snapshot root tree index overflow"),
            ),
        ),
    }
}

} // verus!
