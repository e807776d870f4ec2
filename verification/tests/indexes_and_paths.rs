use ait_core::generation::capture::stable_repack_hash48;
use ait_core::generation::indexes::{
    content_identity_index_plans, content_identity_key, is_content_identity_index,
    rebuild_content_identity_index, validate_content_identity_index, ContentIdentityKind,
};
use ait_core::generation::paths::{is_canonical_pack_path, is_sha256};
use ait_core::schema::codec::{BinaryBlobCodec, BinarySnapshotCodec, BinaryTreeCodec};
use ait_core::schema::records::{BinaryBlobRecord, BinarySnapshotRecord, BinaryTreeRecord};
use sha2::{Digest, Sha256};

fn tree_file(hash: [u8; 10]) -> Vec<u8> {
    let record = BinaryTreeRecord {
        tree_meta: 0,
        reserved0: 0,
        pack_entry_ordinal: 0,
        entry_count: 0,
        tree_hash80: hash,
    };
    let mut bytes = 1_u32.to_le_bytes().to_vec();
    bytes.extend(BinaryTreeCodec::<1>::encode_record(&record).unwrap());
    bytes
}

fn tree_plan() -> ait_core::generation::indexes::ContentIdentityIndexPlan {
    content_identity_index_plans()
        .into_iter()
        .find(|plan| plan.kind == ContentIdentityKind::Tree)
        .unwrap()
}

#[test]
fn rebuild_replaces_historical_variable_key_index_with_canonical_fixed_index() {
    let hash = [0x29; 10];
    let records = tree_file(hash);
    let mut legacy = 1_u32.to_le_bytes().to_vec();
    legacy.extend(10_u32.to_le_bytes());
    legacy.extend(hash);
    legacy.extend(0_u32.to_le_bytes());
    let plan = tree_plan();
    let error = validate_content_identity_index(&plan, &records, &legacy).unwrap_err();
    assert!(error.contains("canonical fixed-key bytes"));

    let (rebuilt, manifest) = rebuild_content_identity_index(&plan, &records).unwrap();
    assert_eq!(manifest.relative_path, "local/tree_id.idx");
    let mut expected = 1_u32.to_le_bytes().to_vec();
    expected.extend(hash);
    expected.extend(1_u32.to_le_bytes());
    assert_eq!(rebuilt, expected);
    assert_eq!(manifest.byte_size, expected.len() as u64);
    let digest: String = Sha256::digest(&expected)
        .iter()
        .map(|byte| format!("{byte:02x}"))
        .collect();
    assert_eq!(manifest.sha256, digest);
    validate_content_identity_index(&plan, &records, &rebuilt).unwrap();
}

#[test]
fn validation_rejects_wrong_plus_one_candidates_and_keys() {
    let hash = [0x31; 10];
    let records = tree_file(hash);
    let plan = tree_plan();
    let mut wrong = 1_u32.to_le_bytes().to_vec();
    wrong.extend(hash);
    wrong.extend(2_u32.to_le_bytes());
    let error = validate_content_identity_index(&plan, &records, &wrong).unwrap_err();
    assert!(error.contains("stores plus-one ordinal 2, expected 1"));
    let mut other_key = 1_u32.to_le_bytes().to_vec();
    other_key.extend([0x32; 10]);
    other_key.extend(1_u32.to_le_bytes());
    let error = validate_content_identity_index(&plan, &records, &other_key).unwrap_err();
    assert_eq!(
        error,
        "Binary DB content index tree_id.idx key 0 does not match authoritative tree.bin record 0."
    );
    let mut bad_layout = records.clone();
    bad_layout[0] = 2;
    assert_eq!(
        rebuild_content_identity_index(&plan, &bad_layout).unwrap_err(),
        "Binary DB content index closure requires layout_id 1, found 2 at tree.bin"
    );
}

#[test]
fn identity_keys_are_digest_prefixes_and_little_endian_hashes() {
    let blob = BinaryBlobRecord {
        blob_meta: 0,
        hash_kind: 1,
        reserved0: 0,
        size_bytes: 3,
        pack_member_index_plus1: 0,
        created_at_s: 1,
        pruned_at_s: 0,
        sha256: [7; 32],
    };
    let raw = BinaryBlobCodec::<1>::encode_record(&blob).unwrap();
    assert_eq!(content_identity_key(ContentIdentityKind::Blob, &raw).unwrap(), vec![7; 10]);
    let snapshot = BinarySnapshotRecord {
        snapshot_meta: 0,
        history_flags: 0,
        payload_len: 0,
        payload_offset: 0,
        snapshot_hash48: 0x0102_0304_0506,
        parent_snapshot_index_plus1: 0,
        root_tree_pack_index_plus1: 0,
        root_entry_ordinal: 0,
        line_index_plus1: 0,
        manifest_hash: [0; 32],
        file_count: 0,
        total_bytes: 0,
        created_at_s: 0,
    };
    let raw = BinarySnapshotCodec::<1>::encode_record(&snapshot).unwrap();
    assert_eq!(
        content_identity_key(ContentIdentityKind::Snapshot, &raw).unwrap(),
        0x0102_0304_0506_u64.to_le_bytes().to_vec()
    );
    assert!(content_identity_key(ContentIdentityKind::Tree, &[0; 19]).is_err());
    assert!(is_content_identity_index("blob_id.idx"));
    assert!(!is_content_identity_index("blob.bin"));
    assert_eq!(content_identity_index_plans().len(), 5);
}

#[test]
fn pack_paths_and_digests_are_canonical_only_in_their_exact_form() {
    assert!(is_canonical_pack_path("packs/PCK-0123456789AB.zstpack"));
    assert!(is_canonical_pack_path("tree-packs/TPK-000000000001.zstpack"));
    assert!(!is_canonical_pack_path("tree-packs/PCK-000000000001.zstpack"));
    assert!(!is_canonical_pack_path("packs/PCK-0123456789ab.zstpack"));
    assert!(!is_canonical_pack_path("packs/PCK-0123456789A.zstpack"));
    assert!(!is_canonical_pack_path("packs/PCK-0123456789AB.pack"));
    assert!(is_sha256(&"a".repeat(64)));
    assert!(!is_sha256(&"A".repeat(64)));
    assert!(!is_sha256(&"a".repeat(63)));
}

#[test]
fn repack_hashes_take_the_first_six_digest_bytes() {
    let ids = vec!["BLB-1".to_string(), "BLB-22".to_string()];
    let mut hasher = Sha256::new();
    hasher.update(b"ait.binary-db-generation.repack.v1\0");
    hasher.update("objects".as_bytes());
    hasher.update([0]);
    for id in &ids {
        hasher.update((id.len() as u64).to_le_bytes());
        hasher.update(id.as_bytes());
    }
    let digest = hasher.finalize();
    let expected = digest[..6]
        .iter()
        .fold(0_u64, |acc, byte| (acc << 8) | u64::from(*byte));
    assert_eq!(stable_repack_hash48("objects", &ids), expected);
    assert_ne!(stable_repack_hash48("trees", &ids), expected);
}
