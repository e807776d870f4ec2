use ait_core::ids::{
    blob_id_from_sha256, blob_id_index_key, object_pack_hash48_from_id, object_pack_id_from_hash48,
    object_pack_id_index_key, snapshot_hash48_from_id, snapshot_id_from_hash48,
    snapshot_id_index_key, tree_id_from_hash80, tree_id_index_key, tree_pack_hash48_from_id,
    tree_pack_id_from_hash48, tree_pack_id_index_key,
};
use ait_core::schema::codec::{
    BinaryBlobCodec, BinaryObjectPackCodec, BinaryObjectPackMemberCodec, BinarySnapshotCodec,
    BinaryTreeCodec, BinaryTreePackCodec,
};
use ait_core::schema::payloads::BinarySnapshotPayload;
use ait_core::schema::records::{
    BinaryBlobRecord, BinaryObjectPackMemberRecord, BinaryObjectPackRecord, BinarySnapshotRecord,
    BinaryTreePackRecord, BinaryTreeRecord,
};
use ait_core::stores::{BinaryDbBlobStore, BinaryDbSnapshotStore, BinaryDbTreeStore};

#[test]
fn ids_render_and_parse_back() {
    let mut sha = [0_u8; 32];
    for (index, byte) in sha.iter_mut().enumerate() {
        *byte = index as u8 * 17;
    }
    let blob_id = blob_id_from_sha256(&sha);
    assert_eq!(blob_id, "BLB-00112233445566778899");
    assert_eq!(blob_id_index_key(&blob_id).unwrap(), [0, 17, 34, 51, 68, 85, 102, 119, 136, 153]);
    let hash80 = [0xab_u8, 0xcd, 1, 2, 3, 4, 5, 6, 7, 8];
    let tree_id = tree_id_from_hash80(&hash80);
    assert_eq!(tree_id, "TRE-ABCD0102030405060708");
    assert_eq!(tree_id_index_key(&tree_id).unwrap(), hash80);
    assert_eq!(object_pack_id_from_hash48(0xABC), "PCK-000000000ABC");
    assert_eq!(tree_pack_id_from_hash48(1), "TPK-000000000001");
    assert_eq!(snapshot_id_from_hash48(0xFFFF_FFFF_FFFF), "SNP-FFFFFFFFFFFF");
    assert_eq!(object_pack_hash48_from_id(" pck-000000000abc ").unwrap(), 0xABC);
    assert_eq!(tree_pack_hash48_from_id("TPK-000000000001").unwrap(), 1);
    assert_eq!(snapshot_hash48_from_id("SNP-FFFFFFFFFFFF").unwrap(), 0xFFFF_FFFF_FFFF);
    assert_eq!(snapshot_id_index_key("SNP-000000000102").unwrap(), 0x102_u64.to_le_bytes());
    assert_eq!(object_pack_id_index_key("PCK-000000000001").unwrap(), 1_u64.to_le_bytes());
    assert_eq!(tree_pack_id_index_key("TPK-000000000002").unwrap(), 2_u64.to_le_bytes());
    assert!(snapshot_hash48_from_id("PCK-000000000001").is_err());
    assert!(snapshot_hash48_from_id("SNP-00000000001").is_err());
    assert!(snapshot_hash48_from_id("SNP-00000000000G").is_err());
}

#[test]
fn records_round_trip_through_their_codecs() {
    let blob = BinaryBlobRecord {
        blob_meta: BinaryBlobRecord::META_HAS_PACK_MEMBER,
        hash_kind: 1,
        reserved0: 0,
        size_bytes: 1234,
        pack_member_index_plus1: 3,
        created_at_s: 7,
        pruned_at_s: 0,
        sha256: [9; 32],
    };
    let bytes = BinaryBlobCodec::<1>::encode_record(&blob).unwrap();
    assert_eq!(bytes.len(), 64);
    assert_eq!(BinaryBlobCodec::<1>::decode_record(&bytes).unwrap(), blob);
    assert!(BinaryBlobCodec::<2>::encode_record(&blob).is_err());
    assert!(BinaryBlobCodec::<1>::decode_record(&bytes[..63]).is_err());
    assert_eq!(blob.pack_member_index(), Some(2));

    let pack = BinaryObjectPackRecord {
        pack_meta: BinaryObjectPackRecord::META_READY,
        pack_format_kind: 1,
        pack_hash_hi16: 0x12,
        pack_hash_lo32: 0x3456_789A,
        first_member_index: 4,
        member_count: 2,
        total_bytes: 99,
        created_at_s: 5,
    };
    let bytes = BinaryObjectPackCodec::<1>::encode_record(&pack).unwrap();
    assert_eq!(BinaryObjectPackCodec::<1>::decode_record(&bytes).unwrap(), pack);
    assert_eq!(pack.pack_hash48(), 0x12_3456_789A);

    let member = BinaryObjectPackMemberRecord {
        member_meta: 1,
        delta_chain_depth: 2,
        reserved0: 0,
        pack_index: 1,
        blob_index: 2,
        base_blob_index_plus1: 4,
    };
    let bytes = BinaryObjectPackMemberCodec::<1>::encode_record(&member).unwrap();
    assert_eq!(BinaryObjectPackMemberCodec::<1>::decode_record(&bytes).unwrap(), member);
    assert_eq!(member.base_blob_index(), Some(3));

    let tree_pack = BinaryTreePackRecord {
        pack_meta: BinaryTreePackRecord::META_READY | BinaryTreePackRecord::META_SPARSE_PHYSICAL_ORDINALS,
        pack_format_kind: 1,
        pack_hash_hi16: 1,
        pack_hash_lo32: 2,
        first_tree_index: 0,
        tree_count: 3,
        total_bytes: 10,
        created_at_s: 11,
    };
    let bytes = BinaryTreePackCodec::<1>::encode_record(&tree_pack).unwrap();
    assert_eq!(BinaryTreePackCodec::<1>::decode_record(&bytes).unwrap(), tree_pack);
    assert!(tree_pack.has_sparse_physical_ordinals());

    let tree = BinaryTreeRecord {
        tree_meta: 0,
        reserved0: 0,
        pack_entry_ordinal: 7,
        entry_count: 2,
        tree_hash80: [1; 10],
    };
    let bytes = BinaryTreeCodec::<1>::encode_record(&tree).unwrap();
    assert_eq!(bytes.len(), 20);
    assert_eq!(BinaryTreeCodec::<1>::decode_record(&bytes).unwrap(), tree);
}

#[test]
fn snapshot_records_and_payloads_round_trip() {
    let record = BinarySnapshotRecord {
        snapshot_meta: BinarySnapshotRecord::META_HAS_MESSAGE
            | BinarySnapshotRecord::META_HAS_LINE_NAME_PAYLOAD,
        history_flags: 0,
        payload_len: 12,
        payload_offset: 4,
        snapshot_hash48: 0xABCDEF,
        parent_snapshot_index_plus1: 1,
        root_tree_pack_index_plus1: 0,
        root_entry_ordinal: 0,
        line_index_plus1: 2,
        manifest_hash: [3; 32],
        file_count: 4,
        total_bytes: 5,
        created_at_s: 6,
    };
    let bytes = BinarySnapshotCodec::<1>::encode_record(&record).unwrap();
    assert_eq!(bytes.len(), 88);
    assert_eq!(BinarySnapshotCodec::<1>::decode_record(&bytes).unwrap(), record);
    assert_eq!(record.parent_snapshot_index(), Some(0));
    assert_eq!(record.line_index(), Some(1));
    assert!(record.has_message());

    let payload = BinarySnapshotPayload {
        line_name: "main".to_string(),
        message: Some("first".to_string()),
        additional_parent_snapshot_indices: vec![3, 5],
    };
    let raw = BinarySnapshotCodec::<1>::encode_payload(&payload).unwrap();
    let decoded = BinarySnapshotCodec::<1>::decode_payload(&raw, true, true).unwrap();
    assert_eq!(decoded, payload);
}

#[test]
fn stores_name_their_files_at_the_write_layout() {
    let blobs = BinaryDbBlobStore::<(), 1>::new((), "/repo".to_string());
    assert_eq!(blobs.repo_root(), "/repo");
    assert_eq!(BinaryDbBlobStore::<(), 1>::blob_file().path, "blob.bin");
    assert_eq!(BinaryDbBlobStore::<(), 1>::blob_id_index().fixed_key_size, Some(10));
    assert_eq!(BinaryDbSnapshotStore::<(), 1>::snapshot_payload_file().path, "snapshot_payload.bin");
    assert_eq!(BinaryDbSnapshotStore::<(), 1>::snapshot_file().record_size, 88);
    assert_eq!(BinaryDbTreeStore::<(), 1>::tree_id_index().path, "tree_id.idx");
    assert_eq!(BinaryDbTreeStore::<(), 3>::tree_file().layout_id, 3);
}

#[test]
fn malformed_ids_are_refused_with_the_reason() {
    let prefix = ait_core::ids::blob_id_index_key(" TRE-00112233445566778899 ").unwrap_err();
    assert_eq!(prefix.message, "id `TRE-00112233445566778899` must start with BLB-");
    let count = ait_core::ids::tree_id_index_key("TRE-0011").unwrap_err();
    assert_eq!(count.message, "id `TRE-0011` has 4 hex chars, expected 20");
    let bytes = ait_core::ids::object_pack_id_index_key("PCK-00112233445é").unwrap_err();
    assert_eq!(bytes.message, "id `PCK-00112233445é` has 13 hex chars, expected 12");
    let digit = ait_core::ids::snapshot_id_index_key("snp-00112233445g").unwrap_err();
    assert_eq!(digit.message, "invalid hex id `snp-00112233445g`");
}
