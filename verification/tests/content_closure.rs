use ait_core::generation::capture::canonicalize_tree_locators;
use ait_core::generation::content_closure::{
    validate_content_identity_indexes, validate_repository_content_closure, ContentAuthorityFiles,
    RepositoryContentClosureSummary,
};
use ait_core::generation::indexes::{
    content_identity_index_plans, rebuild_content_identity_index, ContentIdentityKind,
};
use ait_core::ids::{blob_id_from_sha256, tree_id_from_hash80};
use ait_core::read::BinaryTreeEntryView;
use ait_core::schema::codec::{
    BinaryBlobCodec, BinaryObjectPackCodec, BinaryObjectPackMemberCodec, BinarySnapshotCodec,
    BinaryTreeCodec, BinaryTreePackCodec,
};
use ait_core::schema::records::{
    BinaryBlobRecord, BinaryObjectPackMemberRecord, BinaryObjectPackRecord, BinarySnapshotRecord,
    BinaryTreePackRecord, BinaryTreeRecord,
};
use sha2::{Digest, Sha256};

fn table(records: &[Vec<u8>]) -> Vec<u8> {
    let mut bytes = 1_u32.to_le_bytes().to_vec();
    for record in records {
        bytes.extend(record);
    }
    bytes
}

fn empty_files() -> ContentAuthorityFiles {
    ContentAuthorityFiles {
        blob: None,
        snapshot: None,
        snapshot_payload: None,
        object_pack: None,
        object_pack_member: None,
        tree_pack: None,
        tree: None,
        blob_id_index: None,
        snapshot_id_index: None,
        object_pack_id_index: None,
        tree_id_index: None,
        tree_pack_id_index: None,
    }
}

fn index_for(kind: ContentIdentityKind, records: &[u8]) -> Vec<u8> {
    let plan = content_identity_index_plans()
        .into_iter()
        .find(|plan| plan.kind == kind)
        .unwrap();
    rebuild_content_identity_index(&plan, records).unwrap().0
}

fn with_indexes(mut files: ContentAuthorityFiles) -> ContentAuthorityFiles {
    files.blob_id_index = files.blob.as_ref().map(|b| index_for(ContentIdentityKind::Blob, b));
    files.snapshot_id_index = files
        .snapshot
        .as_ref()
        .map(|b| index_for(ContentIdentityKind::Snapshot, b));
    files.object_pack_id_index = files
        .object_pack
        .as_ref()
        .map(|b| index_for(ContentIdentityKind::ObjectPack, b));
    files.tree_id_index = files.tree.as_ref().map(|b| index_for(ContentIdentityKind::Tree, b));
    files.tree_pack_id_index = files
        .tree_pack
        .as_ref()
        .map(|b| index_for(ContentIdentityKind::TreePack, b));
    files
}

fn tree_pack(first_tree_index: u32, tree_count: u32, meta: u8) -> BinaryTreePackRecord {
    BinaryTreePackRecord {
        pack_meta: meta,
        pack_format_kind: 1,
        pack_hash_hi16: 0,
        pack_hash_lo32: 7,
        first_tree_index,
        tree_count,
        total_bytes: 1,
        created_at_s: 1,
    }
}

fn tree(ordinal: u32, hash: u8) -> BinaryTreeRecord {
    BinaryTreeRecord {
        tree_meta: 0,
        reserved0: 0,
        pack_entry_ordinal: ordinal,
        entry_count: 1,
        tree_hash80: [hash; 10],
    }
}

fn live_blob(sha: u8, member_plus1: u32) -> BinaryBlobRecord {
    BinaryBlobRecord {
        blob_meta: if member_plus1 == 0 { 0 } else { BinaryBlobRecord::META_HAS_PACK_MEMBER },
        hash_kind: 1,
        reserved0: 0,
        size_bytes: 1,
        pack_member_index_plus1: member_plus1,
        created_at_s: 1,
        pruned_at_s: 0,
        sha256: [sha; 32],
    }
}

fn entry(name: &str, kind: &str, target: &str) -> BinaryTreeEntryView {
    BinaryTreeEntryView {
        entry_ordinal: 0,
        entry_name: name.to_string(),
        entry_type: kind.to_string(),
        target_id: target.to_string(),
        size_bytes: None,
        mode: None,
    }
}

/// A small generation with one blob in one object pack, one tree in one
/// tree pack, and one live snapshot rooted at that tree.
fn valid_generation() -> (ContentAuthorityFiles, Vec<Vec<BinaryTreeEntryView>>) {
    let blob = live_blob(0x51, 1);
    let pack = BinaryObjectPackRecord {
        pack_meta: BinaryObjectPackRecord::META_READY,
        pack_format_kind: 1,
        pack_hash_hi16: 0,
        pack_hash_lo32: 3,
        first_member_index: 0,
        member_count: 1,
        total_bytes: 1,
        created_at_s: 1,
    };
    let member = BinaryObjectPackMemberRecord {
        member_meta: 0,
        delta_chain_depth: 0,
        reserved0: 0,
        pack_index: 0,
        blob_index: 0,
        base_blob_index_plus1: 0,
    };
    let snapshot = BinarySnapshotRecord {
        snapshot_meta: BinarySnapshotRecord::META_HAS_ROOT_LOCATOR,
        history_flags: 0,
        payload_len: 2,
        payload_offset: 4,
        snapshot_hash48: 9,
        parent_snapshot_index_plus1: 0,
        root_tree_pack_index_plus1: 1,
        root_entry_ordinal: 0,
        line_index_plus1: 0,
        manifest_hash: [0; 32],
        file_count: 0,
        total_bytes: 0,
        created_at_s: 1,
    };
    let mut payload = 1_u32.to_le_bytes().to_vec();
    payload.extend([0_u8, 0_u8]);
    let mut files = empty_files();
    files.blob = Some(table(&[BinaryBlobCodec::<1>::encode_record(&blob).unwrap()]));
    files.object_pack = Some(table(&[BinaryObjectPackCodec::<1>::encode_record(&pack).unwrap()]));
    files.object_pack_member = Some(table(&[
        BinaryObjectPackMemberCodec::<1>::encode_record(&member).unwrap()
    ]));
    files.tree_pack = Some(table(&[BinaryTreePackCodec::<1>::encode_record(&tree_pack(
        0,
        1,
        BinaryTreePackRecord::META_READY,
    ))
    .unwrap()]));
    files.tree = Some(table(&[BinaryTreeCodec::<1>::encode_record(&tree(0, 0x61)).unwrap()]));
    files.snapshot = Some(table(&[BinarySnapshotCodec::<1>::encode_record(&snapshot).unwrap()]));
    files.snapshot_payload = Some(payload);
    let blob_id = blob_id_from_sha256(&[0x51; 32]);
    let entries = vec![vec![entry("README.md", "blob", &blob_id.to_uppercase())]];
    (with_indexes(files), entries)
}

#[test]
fn compact_tree_locator_must_match_dense_pack_ordinal() {
    let mut files = empty_files();
    files.tree_pack = Some(table(&[BinaryTreePackCodec::<1>::encode_record(&tree_pack(
        0,
        1,
        BinaryTreePackRecord::META_READY,
    ))
    .unwrap()]));
    files.tree = Some(table(&[BinaryTreeCodec::<1>::encode_record(&tree(7, 1)).unwrap()]));
    let error = validate_repository_content_closure(&files, &[Vec::new()]).unwrap_err();
    assert!(error.contains("compact pack ordinal 7, expected 0"));
}

#[test]
fn canonical_generation_rejects_blob_tombstones_but_allows_live_duplicate_candidates() {
    let original = live_blob(0x44, 0);
    let mut duplicate = original.clone();
    duplicate.blob_meta |= BinaryBlobRecord::META_TOMBSTONE;
    let mut files = empty_files();
    files.blob = Some(table(&[
        BinaryBlobCodec::<1>::encode_record(&original).unwrap(),
        BinaryBlobCodec::<1>::encode_record(&duplicate).unwrap(),
    ]));
    let error = validate_repository_content_closure(&files, &[]).unwrap_err();
    assert!(error.contains("canonical generation contains unavailable blob 1"));

    duplicate.blob_meta &= !BinaryBlobRecord::META_TOMBSTONE;
    files.blob = Some(table(&[
        BinaryBlobCodec::<1>::encode_record(&original).unwrap(),
        BinaryBlobCodec::<1>::encode_record(&duplicate).unwrap(),
    ]));
    let files = with_indexes(files);
    validate_repository_content_closure(&files, &[]).unwrap();
}

#[test]
fn a_complete_generation_reports_its_record_and_entry_counts() {
    let (files, entries) = valid_generation();
    let summary = validate_repository_content_closure(&files, &entries).unwrap();
    assert_eq!(
        summary,
        RepositoryContentClosureSummary {
            blob_count: 1,
            snapshot_count: 1,
            object_pack_count: 1,
            object_pack_member_count: 1,
            tree_pack_count: 1,
            tree_count: 1,
            tree_entry_count: 1,
        }
    );
}

#[test]
fn an_empty_generation_is_closed() {
    let summary = validate_repository_content_closure(&empty_files(), &[]).unwrap();
    assert_eq!(summary.blob_count, 0);
    assert_eq!(summary.tree_entry_count, 0);
}

#[test]
fn tree_entries_must_name_live_content_once() {
    let (files, _) = valid_generation();
    let missing = vec![vec![entry("a", "blob", "BLB-00000000000000000000")]];
    let error = validate_repository_content_closure(&files, &missing).unwrap_err();
    assert!(error.contains("references missing active blob"));

    let tree_id = tree_id_from_hash80(&[0x61; 10]);
    let self_tree = vec![vec![entry("sub", "tree", &tree_id)]];
    validate_repository_content_closure(&files, &self_tree).unwrap();

    let blob_id = blob_id_from_sha256(&[0x51; 32]);
    let duplicate = vec![vec![entry("a", "blob", &blob_id), entry("a", "blob", &blob_id)]];
    let error = validate_repository_content_closure(&files, &duplicate).unwrap_err();
    assert!(error.contains("duplicate entry name a"));

    let link = vec![vec![entry("a", "symlink", &blob_id)]];
    let error = validate_repository_content_closure(&files, &link).unwrap_err();
    assert!(error.contains("unsupported entry type symlink"));

    let error = validate_repository_content_closure(&files, &[]).unwrap_err();
    assert!(error.contains("read 0 tree entry lists, expected 1"));
}

#[test]
fn snapshots_need_their_payload_authority_and_a_live_root() {
    let (mut files, entries) = valid_generation();
    files.snapshot_payload = None;
    let error = validate_repository_content_closure(&files, &entries).unwrap_err();
    assert!(error.contains("Snapshot payload authority"));

    let (mut files, entries) = valid_generation();
    let mut payload = 1_u32.to_le_bytes().to_vec();
    payload.push(0);
    files.snapshot_payload = Some(payload);
    let error = validate_repository_content_closure(&files, &entries).unwrap_err();
    assert!(error.contains("requires snapshot_payload.bin bytes [4..6), but the file contains 5 bytes"));
}

#[test]
fn identity_indexes_must_match_their_tables() {
    let (mut files, entries) = valid_generation();
    files.tree_id_index = None;
    let error = validate_repository_content_closure(&files, &entries).unwrap_err();
    assert!(error.contains("tree_id.idx is missing"));

    let mut files = empty_files();
    files.blob_id_index = Some(1_u32.to_le_bytes().to_vec());
    let error = validate_content_identity_indexes(&files).unwrap_err();
    assert!(error.contains("exists without authoritative blob.bin"));
}

#[test]
fn misaligned_tables_are_refused() {
    let mut files = empty_files();
    files.tree = Some(vec![1, 0, 0, 0, 9]);
    let error = validate_repository_content_closure(&files, &[]).unwrap_err();
    assert!(error.contains("not aligned to 20-byte records"));
}

#[test]
fn canonical_tree_locators_take_the_dense_ordinal_of_compact_packs() {
    let packs = table(&[
        BinaryTreePackCodec::<1>::encode_record(&tree_pack(0, 2, BinaryTreePackRecord::META_READY))
            .unwrap(),
        BinaryTreePackCodec::<1>::encode_record(&tree_pack(
            2,
            1,
            BinaryTreePackRecord::META_READY | BinaryTreePackRecord::META_SPARSE_PHYSICAL_ORDINALS,
        ))
        .unwrap(),
    ]);
    let trees = table(&[
        BinaryTreeCodec::<1>::encode_record(&tree(5, 1)).unwrap(),
        BinaryTreeCodec::<1>::encode_record(&tree(9, 2)).unwrap(),
        BinaryTreeCodec::<1>::encode_record(&tree(4, 3)).unwrap(),
    ]);
    let (bytes, manifest) = canonicalize_tree_locators("local/tree.bin", &trees, &packs).unwrap();
    let (again, _) = canonicalize_tree_locators("local/tree.bin", &bytes, &packs).unwrap();
    assert_eq!(again, bytes);
    let expected = table(&[
        BinaryTreeCodec::<1>::encode_record(&tree(0, 1)).unwrap(),
        BinaryTreeCodec::<1>::encode_record(&tree(1, 2)).unwrap(),
        BinaryTreeCodec::<1>::encode_record(&tree(4, 3)).unwrap(),
    ]);
    assert_eq!(bytes, expected);
    assert_eq!(manifest.relative_path, "local/tree.bin");
    assert_eq!(manifest.byte_size, trees.len() as u64);
    assert_eq!(manifest.record_count, Some(3));
    let digest = Sha256::digest(&expected);
    let hex: String = digest.iter().map(|b| format!("{b:02x}")).collect();
    assert_eq!(manifest.sha256, hex);
}

#[test]
fn canonical_tree_locators_refuse_gaps_overruns_and_wrong_layouts() {
    let trees = table(&[BinaryTreeCodec::<1>::encode_record(&tree(0, 1)).unwrap()]);
    let gap = table(&[
        BinaryTreePackCodec::<1>::encode_record(&tree_pack(1, 0, BinaryTreePackRecord::META_READY))
            .unwrap(),
    ]);
    let error = canonicalize_tree_locators("local/tree.bin", &trees, &gap).unwrap_err();
    assert!(error.contains("starts at 1, expected dense tree index 0"));

    let overrun = table(&[
        BinaryTreePackCodec::<1>::encode_record(&tree_pack(0, 2, BinaryTreePackRecord::META_READY))
            .unwrap(),
    ]);
    let error = canonicalize_tree_locators("local/tree.bin", &trees, &overrun).unwrap_err();
    assert!(error.contains("exceeds the 1-record tree.bin authority"));

    let short = table(&[]);
    let error = canonicalize_tree_locators("local/tree.bin", &trees, &short).unwrap_err();
    assert!(error.contains("cover 0 tree records, but tree.bin contains 1"));

    let mut wrong = trees.clone();
    wrong[0] = 2;
    let error = canonicalize_tree_locators("local/tree.bin", &wrong, &short).unwrap_err();
    assert!(error.contains("got 2 and 1"));
}

fn single_tree_table(hash: [u8; 10]) -> Vec<u8> {
    let record = BinaryTreeRecord {
        tree_meta: 0,
        reserved0: 0,
        pack_entry_ordinal: 0,
        entry_count: 0,
        tree_hash80: hash,
    };
    table(&[BinaryTreeCodec::<1>::encode_record(&record).unwrap()])
}

#[test]
fn rebuild_preserves_an_already_canonical_index_byte_for_byte() {
    let hash = [0x2f; 10];
    let records = single_tree_table(hash);
    let mut canonical = 1_u32.to_le_bytes().to_vec();
    canonical.extend(hash);
    canonical.extend(1_u32.to_le_bytes());
    assert_eq!(index_for(ContentIdentityKind::Tree, &records), canonical);
    let mut files = empty_files();
    files.tree = Some(records);
    files.tree_id_index = Some(canonical);
    validate_content_identity_indexes(&files).unwrap();
}

#[test]
fn validation_rejects_missing_and_wrong_plus_one_candidates() {
    let hash = [0x31; 10];
    let mut files = empty_files();
    files.tree = Some(single_tree_table(hash));
    let missing = validate_content_identity_indexes(&files).unwrap_err();
    assert!(missing.contains("missing or unreadable"));

    let mut wrong = 1_u32.to_le_bytes().to_vec();
    wrong.extend(hash);
    wrong.extend(2_u32.to_le_bytes());
    files.tree_id_index = Some(wrong);
    let error = validate_content_identity_indexes(&files).unwrap_err();
    assert!(error.contains("stores plus-one ordinal 2, expected 1"));
}
