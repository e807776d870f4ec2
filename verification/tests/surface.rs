use ait_core::error::{BinaryDbError, BinaryDbErrorKind};
use ait_core::read::BinaryTreePackView;
use ait_core::schema::records::{
    BinaryBlobRecord, BinarySnapshotKind, BinaryTreePackRecord, BinaryTreeRecord,
};
use ait_core::surface::{
    blob_view_from_record, content_index, content_payload, content_record_file,
    persisted_content_layout, require_supported_content_layout, required_content_layout,
    snapshot_kind_name, snapshot_root_tree_index, tree_view_from_record,
};

fn missing() -> BinaryDbError {
    BinaryDbError::new(BinaryDbErrorKind::MissingData, "no such file".to_string())
}

#[test]
fn only_the_supported_layout_is_read() {
    assert!(require_supported_content_layout(1, "blob").is_ok());
    let error = require_supported_content_layout(2, "blob").unwrap_err();
    assert_eq!(error.kind, BinaryDbErrorKind::LayoutMismatch);
    assert_eq!(
        error.message,
        "unsupported persisted Binary DB blob layout: 2; supported layout is 1"
    );
    assert_eq!(persisted_content_layout(Ok(1), "tree").unwrap(), Some(1));
    assert_eq!(persisted_content_layout(Err(missing()), "tree").unwrap(), None);
    let other = BinaryDbError::new(BinaryDbErrorKind::Corruption, "torn".to_string());
    assert_eq!(persisted_content_layout(Err(other), "tree").unwrap_err().message, "torn");
    assert_eq!(
        persisted_content_layout(Ok(3), "tree").unwrap_err().kind,
        BinaryDbErrorKind::LayoutMismatch
    );
    let error = required_content_layout(Err(missing()), "tree.bin", "tree").unwrap_err();
    assert_eq!(error.kind, BinaryDbErrorKind::MissingData);
    assert_eq!(error.message, "Binary DB tree file tree.bin is missing");
    assert_eq!(required_content_layout(Ok(1), "tree.bin", "tree").unwrap(), 1);
}

#[test]
fn file_ids_carry_the_layout() {
    let file = content_record_file("blob.bin", 64, 1, "blob").unwrap();
    assert_eq!((file.path.as_str(), file.layout_id, file.record_size), ("blob.bin", 1, 64));
    assert!(content_record_file("blob.bin", 64, 0, "blob").is_err());
    let index = content_index("blob_id.idx", 1, "blob", Some((10, true))).unwrap();
    assert_eq!((index.fixed_key_size, index.plus_one), (Some(10), true));
    let plain = content_index("tree_id.idx", 1, "tree", None).unwrap();
    assert_eq!((plain.fixed_key_size, plain.plus_one), (None, false));
    assert!(content_index("tree_id.idx", 5, "tree", None).is_err());
    let payload = content_payload("snapshot_payload.bin", 1, "snapshot").unwrap();
    assert_eq!(payload.path, "snapshot_payload.bin");
    assert!(content_payload("snapshot_payload.bin", 9, "snapshot").is_err());
}

#[test]
fn record_views_name_their_content() {
    let mut sha256 = [0u8; 32];
    for (i, byte) in sha256.iter_mut().enumerate() {
        *byte = i as u8;
    }
    let record = BinaryBlobRecord {
        blob_meta: 1,
        hash_kind: 1,
        reserved0: 0,
        size_bytes: 12,
        pack_member_index_plus1: 5,
        created_at_s: 0,
        pruned_at_s: 0,
        sha256,
    };
    let view = blob_view_from_record(7, record.clone());
    assert_eq!(view.blob_index, 7);
    assert_eq!(view.blob_id, "BLB-00010203040506070809");
    assert_eq!(view.sha256.len(), 64);
    assert!(view.sha256.starts_with("000102"));
    assert_eq!(view.pack_member_index, Some(4));
    assert_eq!(view.record, record);

    let tree = BinaryTreeRecord {
        tree_meta: 0,
        reserved0: 0,
        pack_entry_ordinal: 0,
        entry_count: 2,
        tree_hash80: [0xab, 0xcd, 1, 2, 3, 4, 5, 6, 7, 8],
    };
    let view = tree_view_from_record(3, tree, Some("TPK-1".to_string()));
    assert_eq!(view.tree_id, "TRE-ABCD0102030405060708");
    assert_eq!(view.tree_pack_id.as_deref(), Some("TPK-1"));
}

#[test]
fn snapshot_kinds_have_names() {
    assert_eq!(snapshot_kind_name(BinarySnapshotKind::Line).unwrap(), "line");
    assert_eq!(snapshot_kind_name(BinarySnapshotKind::Stash).unwrap(), "stash");
    let error = snapshot_kind_name(BinarySnapshotKind::Reserved(3)).unwrap_err();
    assert_eq!(error.message, "unsupported snapshot kind: 3");
}

fn pack(first_tree_index: u32, tree_count: u32) -> BinaryTreePackView {
    BinaryTreePackView {
        tree_pack_index: 0,
        record: BinaryTreePackRecord {
            pack_meta: 1,
            pack_format_kind: 1,
            pack_hash_hi16: 0,
            pack_hash_lo32: 1,
            first_tree_index,
            tree_count,
            total_bytes: 0,
            created_at_s: 0,
        },
        pack_id: "TPK-000000000001".to_string(),
        pack_path: String::new(),
        pack_format: String::new(),
    }
}

#[test]
fn snapshot_roots_lie_inside_their_tree_pack() {
    assert_eq!(snapshot_root_tree_index(2, &pack(10, 3)).unwrap(), 12);
    assert_eq!(
        snapshot_root_tree_index(3, &pack(10, 3)).unwrap_err().message,
        "snapshot root tree ordinal 3 is outside tree pack TPK-000000000001 count 3"
    );
    assert_eq!(
        snapshot_root_tree_index(5, &pack(u32::MAX - 2, 10)).unwrap_err().message,
        "snapshot root tree index overflow"
    );
}
