use ait_core::generation::capture::{
    capture_validation_checks, normalize_pack_relative_path, read_canonical_source_snapshot_records, rewrite_repacked_snapshot_roots, source_record_count,
    source_tree_index_for_pack_ordinal, RepackedTreeLocator,
};
use ait_core::schema::codec::BinarySnapshotCodec;
use ait_core::schema::records::{BinarySnapshotRecord, BinaryTreePackRecord, BinaryTreeRecord};

fn pack(first: u32, count: u32, sparse: bool) -> BinaryTreePackRecord {
    BinaryTreePackRecord {
        pack_meta: BinaryTreePackRecord::META_READY
            | if sparse { BinaryTreePackRecord::META_SPARSE_PHYSICAL_ORDINALS } else { 0 },
        pack_format_kind: 1,
        pack_hash_hi16: 0,
        pack_hash_lo32: 1,
        first_tree_index: first,
        tree_count: count,
        total_bytes: 1,
        created_at_s: 1,
    }
}

fn tree(ordinal: u32) -> BinaryTreeRecord {
    BinaryTreeRecord {
        tree_meta: 0,
        reserved0: 0,
        pack_entry_ordinal: ordinal,
        entry_count: 0,
        tree_hash80: [0; 10],
    }
}

fn snapshot(meta: u8, root_plus1: u32, ordinal: u32) -> BinarySnapshotRecord {
    BinarySnapshotRecord {
        snapshot_meta: meta,
        history_flags: 0,
        payload_len: 0,
        payload_offset: 0,
        snapshot_hash48: 5,
        parent_snapshot_index_plus1: 0,
        root_tree_pack_index_plus1: root_plus1,
        root_entry_ordinal: ordinal,
        line_index_plus1: 0,
        manifest_hash: [0; 32],
        file_count: 0,
        total_bytes: 0,
        created_at_s: 1,
    }
}

fn table(records: &[BinarySnapshotRecord]) -> Vec<u8> {
    let mut bytes = 1_u32.to_le_bytes().to_vec();
    for record in records {
        bytes.extend(BinarySnapshotCodec::<1>::encode_record(record).unwrap());
    }
    bytes
}

#[test]
fn compact_packs_resolve_ordinals_densely_and_sparse_packs_by_search() {
    let trees = vec![tree(0), tree(9), tree(4), tree(9)];
    assert_eq!(source_tree_index_for_pack_ordinal(&pack(1, 2, false), 1, &trees).unwrap(), 2);
    assert!(source_tree_index_for_pack_ordinal(&pack(1, 2, false), 2, &trees)
        .unwrap_err()
        .contains("outside tree pack count 2"));
    assert_eq!(source_tree_index_for_pack_ordinal(&pack(1, 2, true), 4, &trees).unwrap(), 2);
    assert!(source_tree_index_for_pack_ordinal(&pack(1, 3, true), 9, &trees)
        .unwrap_err()
        .contains("is shared by trees 1 and 3"));
    assert!(source_tree_index_for_pack_ordinal(&pack(1, 2, true), 7, &trees)
        .unwrap_err()
        .contains("no tree at physical ordinal 7"));
    assert!(source_tree_index_for_pack_ordinal(&pack(3, 2, true), 1, &trees)
        .unwrap_err()
        .contains("missing tree 4"));
}

#[test]
fn snapshot_roots_move_to_their_repacked_places() {
    let root = BinarySnapshotRecord::META_HAS_ROOT_LOCATOR;
    let records = vec![
        snapshot(root, 3, 7),
        snapshot(0, 0, 5),
        snapshot(root | BinarySnapshotRecord::META_TOMBSTONE, 3, 7),
    ];
    let ids = vec![((2_u32, 7_u32), "TRE-00AA".to_string())];
    let locators = vec![(
        "tre-00aa".to_string(),
        RepackedTreeLocator { tree_pack_index: 0, pack_entry_ordinal: 4 },
    )];
    let out = rewrite_repacked_snapshot_roots(&table(&records), &ids, &locators).unwrap();
    let expected = table(&[
        snapshot(root, 1, 4),
        snapshot(0, 0, 0),
        snapshot(BinarySnapshotRecord::META_TOMBSTONE, 0, 0),
    ]);
    assert_eq!(out, expected);

    let error = rewrite_repacked_snapshot_roots(&table(&records), &[], &locators).unwrap_err();
    assert!(error.contains("live Snapshot 0 root (2, 7) was not retained"));
    let error = rewrite_repacked_snapshot_roots(&table(&records), &ids, &[]).unwrap_err();
    assert!(error.contains("has no repacked locator"));
    let error = rewrite_repacked_snapshot_roots(&[2, 0, 0, 0], &ids, &locators).unwrap_err();
    assert!(error.contains("invalid before root remap"));
}

#[test]
fn source_snapshots_and_counts_come_from_canonical_tables() {
    assert!(read_canonical_source_snapshot_records(None).unwrap().is_empty());
    let records = vec![snapshot(0, 0, 0), snapshot(0, 0, 0)];
    let bytes = table(&records);
    assert_eq!(read_canonical_source_snapshot_records(Some(&bytes)).unwrap(), records);
    assert!(read_canonical_source_snapshot_records(Some(&bytes[..10]))
        .unwrap_err()
        .contains("misaligned"));

    assert_eq!(source_record_count("tree.bin", None, 20).unwrap(), 0);
    assert_eq!(source_record_count("tree.bin", Some(44), 20).unwrap(), 2);
    assert!(source_record_count("tree.bin", Some(45), 20).is_err());
    assert!(source_record_count("notes.bin", Some(44), 20)
        .unwrap_err()
        .contains("no fixed-record schema"));
    assert!(source_record_count("tree.bin", Some(44), 16)
        .unwrap_err()
        .contains("inconsistent fixed-record byte length"));
}

#[test]
fn capture_reports_its_checks_in_order() {
    let checks = capture_validation_checks();
    assert_eq!(checks.len(), 9);
    assert_eq!(checks[0], "all-domain Binary DB read lock held through capture");
    assert_eq!(checks[8], "copy used bounded streaming buffers");
}

#[test]
fn generated_pack_paths_get_forward_slashes_and_must_stay_below_objects() {
    let bin: &[&str] = &["blob.bin"];
    let idx: &[&str] = &[];
    assert_eq!(
        normalize_pack_relative_path(".ait\\objects\\packs\\PCK-00000000000A.zstpack", bin, idx)
            .unwrap(),
        ".ait/objects/packs/PCK-00000000000A.zstpack"
    );
    let outside = normalize_pack_relative_path("local/blob.bin", bin, idx).unwrap_err();
    assert_eq!(outside, "pack path is outside .ait/objects/: \"local/blob.bin\"");
    let invalid = normalize_pack_relative_path("../x.zstpack", bin, idx).unwrap_err();
    assert!(invalid.starts_with("invalid generated pack path \"../x.zstpack\": "));
}
