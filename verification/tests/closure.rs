use ait_core::generation::closure::{
    checked_range_end, record_count, require_dense_coverage, require_dense_range, require_index,
    require_payload_range, validate_object_member_backreferences,
    validate_snapshot_parent_authority, validate_snapshot_parent_graph,
};
use ait_core::schema::records::{
    BinaryBlobRecord, BinaryObjectPackMemberRecord, BinaryObjectPackRecord, BinarySnapshotRecord,
};

fn snapshot_fixture_record(hash: u64, primary_parent: Option<u32>) -> BinarySnapshotRecord {
    BinarySnapshotRecord {
        snapshot_meta: 0,
        history_flags: 0,
        payload_len: 0,
        payload_offset: 0,
        snapshot_hash48: hash,
        parent_snapshot_index_plus1: primary_parent.map_or(0, |index| index + 1),
        root_tree_pack_index_plus1: 0,
        root_entry_ordinal: 0,
        line_index_plus1: 0,
        manifest_hash: [0; 32],
        file_count: 0,
        total_bytes: 0,
        created_at_s: hash,
    }
}

#[test]
fn snapshot_parent_graph_allows_reordered_indices_and_rejects_cycles() {
    validate_snapshot_parent_graph(&[vec![1], Vec::new()]).unwrap();
    let error = validate_snapshot_parent_graph(&[vec![1], vec![0]]).unwrap_err();
    assert!(error.contains("parent graph contains a cycle"));
}

#[test]
fn canonical_snapshot_parent_closure_accepts_ordered_merge_payload_and_rejects_bad_graphs() {
    let valid = vec![
        snapshot_fixture_record(1, None),
        snapshot_fixture_record(2, Some(0)),
        snapshot_fixture_record(3, Some(0)),
        snapshot_fixture_record(4, Some(1)),
    ];
    let additional = vec![Vec::new(), Vec::new(), Vec::new(), vec![2]];
    let mut valid = valid;
    valid[3].snapshot_meta |= BinarySnapshotRecord::META_HAS_ADDITIONAL_PARENTS;
    validate_snapshot_parent_authority(&valid, &additional)
        .expect("ordered merge parent payload is canonical");

    let mut missing = valid.clone();
    missing[3].parent_snapshot_index_plus1 = 100;
    let error = validate_snapshot_parent_authority(&missing, &additional).unwrap_err();
    assert!(error.contains("missing parent snapshot 99"));

    let mut self_parent = valid.clone();
    self_parent[1].parent_snapshot_index_plus1 = 2;
    let error = validate_snapshot_parent_authority(&self_parent, &additional).unwrap_err();
    assert!(error.contains("points at itself"));

    let mut forward = valid.clone();
    forward[0].parent_snapshot_index_plus1 = 3;
    let error = validate_snapshot_parent_authority(&forward, &additional).unwrap_err();
    assert!(error.contains("must reference an earlier record"));

    let duplicate = vec![Vec::new(), Vec::new(), Vec::new(), vec![1]];
    let error = validate_snapshot_parent_authority(&valid, &duplicate).unwrap_err();
    assert!(error.contains("duplicate parent snapshot 1"));

    let mut boundary = valid;
    boundary[3].history_flags = BinarySnapshotRecord::FLAG_REMOTE_HEAD_HISTORY_BOUNDARY;
    let error = validate_snapshot_parent_authority(&boundary, &additional).unwrap_err();
    assert!(error.contains("remote-head history boundary"));
}

fn ready_pack(first_member_index: u32, member_count: u32, lo: u32) -> BinaryObjectPackRecord {
    BinaryObjectPackRecord {
        pack_meta: BinaryObjectPackRecord::META_READY,
        pack_format_kind: 1,
        pack_hash_hi16: 0,
        pack_hash_lo32: lo,
        first_member_index,
        member_count,
        total_bytes: 1,
        created_at_s: 1,
    }
}

fn member(pack_index: u32, blob_index: u32) -> BinaryObjectPackMemberRecord {
    BinaryObjectPackMemberRecord {
        member_meta: 0,
        delta_chain_depth: 0,
        reserved0: 0,
        pack_index,
        blob_index,
        base_blob_index_plus1: 0,
    }
}

fn blob(meta: u8, member_plus1: u32, fill: u8) -> BinaryBlobRecord {
    BinaryBlobRecord {
        blob_meta: meta,
        hash_kind: 1,
        reserved0: 0,
        size_bytes: 1,
        pack_member_index_plus1: member_plus1,
        created_at_s: 1,
        pruned_at_s: 0,
        sha256: [fill; 32],
    }
}

#[test]
fn canonical_generation_rejects_tombstoned_member_in_active_object_pack() {
    let live_pack = ready_pack(0, 2, 1);
    let live_member = member(0, 0);
    let mut tombstoned_member = live_member.clone();
    tombstoned_member.member_meta |= BinaryObjectPackMemberRecord::META_TOMBSTONE;
    let live_blob = blob(BinaryBlobRecord::META_HAS_PACK_MEMBER, 1, 0x22);

    let error = validate_object_member_backreferences(
        &[live_pack],
        &[live_member, tombstoned_member],
        &[live_blob],
        &[Some(0)],
    )
    .unwrap_err();
    assert!(error.contains("active object pack 0 contains tombstoned member 1"));
}

#[test]
fn overlapping_object_packs_may_share_a_blob_with_one_selected_member() {
    let first_pack = ready_pack(0, 1, 1);
    let second_pack = BinaryObjectPackRecord {
        pack_hash_lo32: 2,
        first_member_index: 1,
        ..first_pack.clone()
    };
    let selected_member = member(0, 0);
    let duplicate_member = BinaryObjectPackMemberRecord {
        pack_index: 1,
        ..selected_member.clone()
    };
    let shared = blob(BinaryBlobRecord::META_HAS_PACK_MEMBER, 1, 0x23);

    validate_object_member_backreferences(
        &[first_pack, second_pack],
        &[selected_member, duplicate_member],
        &[shared],
        &[Some(0)],
    )
    .expect("overlapping immutable packs may retain a non-selected physical copy");
}

#[test]
fn live_object_pack_member_requires_its_blob_to_select_a_member() {
    let pack = ready_pack(0, 1, 1);
    let live = member(0, 0);
    let unselected = blob(0, 0, 0x24);

    let error = validate_object_member_backreferences(&[pack], &[live], &[unselected], &[None])
        .unwrap_err();
    assert!(error.contains("without a selected object pack member"));
}

#[test]
fn live_object_pack_member_rejects_tombstoned_base_blob_pointer() {
    let pack = ready_pack(0, 1, 1);
    let delta = BinaryObjectPackMemberRecord {
        member_meta: 1,
        delta_chain_depth: 1,
        reserved0: 0,
        pack_index: 0,
        blob_index: 0,
        base_blob_index_plus1: 2,
    };
    let live = blob(BinaryBlobRecord::META_HAS_PACK_MEMBER, 1, 0x33);
    let mut tombstoned_base = live.clone();
    tombstoned_base.blob_meta = BinaryBlobRecord::META_TOMBSTONE;
    tombstoned_base.pack_member_index_plus1 = 0;
    tombstoned_base.sha256 = [0x44; 32];

    let error = validate_object_member_backreferences(
        &[pack],
        &[delta],
        &[live, tombstoned_base],
        &[Some(0), None],
    )
    .unwrap_err();
    assert!(error.contains("references unavailable base blob 1"));
}

#[test]
fn parent_graph_reports_the_snapshot_where_a_cycle_closes() {
    let error = validate_snapshot_parent_graph(&[vec![1], vec![2], vec![0]]).unwrap_err();
    assert_eq!(
        error,
        "Binary DB content closure snapshot parent graph contains a cycle at snapshot 0."
    );
    validate_snapshot_parent_graph(&[Vec::new(), vec![0], vec![0, 1]]).unwrap();
    validate_snapshot_parent_graph(&[]).unwrap();
}

#[test]
fn parent_authority_rejects_misaligned_payloads_and_flag_mismatches() {
    let snapshots = vec![snapshot_fixture_record(1, None), snapshot_fixture_record(2, Some(0))];
    assert_eq!(
        validate_snapshot_parent_authority(&snapshots, &[Vec::new()]).unwrap_err(),
        "Binary DB content closure lost Snapshot parent payload alignment."
    );
    let error =
        validate_snapshot_parent_authority(&snapshots, &[Vec::new(), vec![0]]).unwrap_err();
    assert_eq!(
        error,
        "Binary DB content closure snapshot 1 additional-parent flag disagrees with its payload."
    );
    let mut tombstone = snapshots.clone();
    tombstone[0].snapshot_meta = BinarySnapshotRecord::META_TOMBSTONE;
    let error = validate_snapshot_parent_authority(&tombstone, &[Vec::new(), Vec::new()]).unwrap_err();
    assert_eq!(
        error,
        "Binary DB content closure snapshot 1 references tombstoned parent snapshot 0."
    );
}

#[test]
fn object_member_backreferences_check_pack_ownership_and_blob_pointers() {
    let packs = [ready_pack(0, 1, 1)];
    let error = validate_object_member_backreferences(
        &packs,
        &[member(0, 0)],
        &[blob(BinaryBlobRecord::META_HAS_PACK_MEMBER, 1, 1)],
        &[Some(3)],
    )
    .unwrap_err();
    assert_eq!(error, "Binary DB content closure blob 0 points to missing member 3.");

    let overflowing = [ready_pack(u32::MAX, 2, 1)];
    let error = validate_object_member_backreferences(&overflowing, &[member(0, 0)], &[blob(0, 0, 1)], &[None])
        .unwrap_err();
    assert_eq!(error, "Binary DB content closure object pack 0 range overflows u32.");

    let two = [ready_pack(0, 1, 1), ready_pack(1, 1, 2)];
    let error = validate_object_member_backreferences(
        &two,
        &[member(1, 0)],
        &[blob(BinaryBlobRecord::META_HAS_PACK_MEMBER, 1, 1)],
        &[Some(0)],
    )
    .unwrap_err();
    assert_eq!(
        error,
        "Binary DB content closure object pack member 0 points to pack 1, expected 0."
    );
}

#[test]
fn index_and_range_rules_name_the_owner_and_the_bounds() {
    require_index("blob", 3, "object pack member", 1, 2).unwrap();
    assert_eq!(
        require_index("blob", 3, "object pack member", 2, 2).unwrap_err(),
        "Binary DB content closure blob 3 references object pack member index 2, but only 2 records exist."
    );
    assert_eq!(checked_range_end("tree pack", 1, 10, 5).unwrap(), 15);
    assert_eq!(
        checked_range_end("tree pack", 1, u32::MAX, 1).unwrap_err(),
        "Binary DB content closure tree pack 1 range overflows u32."
    );

    let mut cursor = 0_u32;
    require_dense_range("object pack", 0, "object_pack_member.bin", 0, 3, 5, &mut cursor).unwrap();
    assert_eq!(cursor, 3);
    assert_eq!(
        require_dense_range("object pack", 1, "object_pack_member.bin", 4, 1, 5, &mut cursor).unwrap_err(),
        "Binary DB content closure object pack 1 starts object_pack_member.bin at 4, expected dense offset 3."
    );
    assert_eq!(cursor, 3);
    assert_eq!(
        require_dense_range("object pack", 1, "object_pack_member.bin", 3, 3, 5, &mut cursor).unwrap_err(),
        "Binary DB content closure object pack 1 requires object_pack_member.bin records [3..6), but the file contains 5 records."
    );
    require_dense_coverage("object pack", "object_pack_member.bin", 5, 5).unwrap();
    assert_eq!(
        require_dense_coverage("object pack", "object_pack_member.bin", 3, 5).unwrap_err(),
        "Binary DB content closure object pack ranges cover 3 object_pack_member.bin records, but the file contains 5."
    );

    require_payload_range("snapshot", 0, "snapshot_payload.bin", 4, 10, 14).unwrap();
    assert_eq!(
        require_payload_range("snapshot", 0, "snapshot_payload.bin", 2, 1, 14).unwrap_err(),
        "Binary DB content closure snapshot 0 requires snapshot_payload.bin bytes [2..3), but the file contains 14 bytes."
    );
    assert_eq!(
        require_payload_range("snapshot", 2, "snapshot_payload.bin", u64::MAX, 1, 14).unwrap_err(),
        "Binary DB content closure snapshot 2 payload range overflows u64."
    );
}

#[test]
fn record_count_requires_a_header_and_whole_records() {
    assert_eq!(record_count("blob.bin", None, 64).unwrap(), 0);
    assert_eq!(record_count("blob.bin", Some(4 + 128), 64).unwrap(), 2);
    assert_eq!(
        record_count("blob.bin", Some(3), 64).unwrap_err(),
        "Binary DB content closure file blob.bin is shorter than its header."
    );
    assert_eq!(
        record_count("blob.bin", Some(4 + 65), 64).unwrap_err(),
        "Binary DB content closure file blob.bin is not aligned to 64-byte records."
    );
}
