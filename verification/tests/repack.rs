use ait_core::generation::repack::{select_canonical_blob_sources, CanonicalBlobSource};
use ait_core::schema::records::{BinaryBlobRecord, BinaryObjectPackMemberRecord};

fn blob(sha: u8, size: u64, member_plus1: u32) -> BinaryBlobRecord {
    BinaryBlobRecord {
        blob_meta: 1,
        hash_kind: 1,
        reserved0: 0,
        size_bytes: size,
        pack_member_index_plus1: member_plus1,
        created_at_s: 1,
        pruned_at_s: 0,
        sha256: [sha; 32],
    }
}

fn member(pack_index: u32, blob_index: u32) -> BinaryObjectPackMemberRecord {
    BinaryObjectPackMemberRecord {
        member_meta: 0,
        delta_chain_depth: 0,
        reserved0: 0,
        pack_index,
        blob_index,
        base_blob_index_plus1: 0,
    }
}

#[test]
fn each_identity_keeps_its_latest_retained_record() {
    let blobs = vec![blob(0xab, 3, 1), blob(0x11, 5, 2), blob(0xab, 3, 3)];
    let members = vec![member(0, 0), member(0, 1), member(1, 2)];
    let sources = select_canonical_blob_sources(&blobs, &members, &[0, 1, 2], &[0, 1, 2]).unwrap();
    assert_eq!(
        sources,
        vec![
            CanonicalBlobSource {
                blob_key: "blb-abababababababababab".to_string(),
                source_blob_index: 2,
                source_pack_index: 1,
                member_index: 2,
            },
            CanonicalBlobSource {
                blob_key: "blb-11111111111111111111".to_string(),
                source_blob_index: 1,
                source_pack_index: 0,
                member_index: 1,
            },
        ]
    );
    let reversed = select_canonical_blob_sources(&blobs, &members, &[2, 0], &[0, 2]).unwrap();
    assert_eq!(reversed[0].source_blob_index, 2);
}

#[test]
fn retained_blobs_are_refused_with_the_reason() {
    let members = vec![member(0, 0), member(0, 1)];
    let mut tombstoned = blob(0xab, 3, 1);
    tombstoned.blob_meta |= 0b1000_0000;
    assert_eq!(
        select_canonical_blob_sources(&[tombstoned], &members, &[0], &[0]).unwrap_err(),
        "retained blob 0 is unavailable during repack"
    );
    assert_eq!(
        select_canonical_blob_sources(&[blob(0xab, 3, 0)], &members, &[0], &[0]).unwrap_err(),
        "retained blob 0 has no object-pack member"
    );
    assert_eq!(
        select_canonical_blob_sources(&[blob(0xab, 3, 2)], &members, &[0], &[0]).unwrap_err(),
        "retained blob 0 points to unretained member 1"
    );
    assert_eq!(
        select_canonical_blob_sources(&[blob(0xab, 3, 2)], &members, &[0], &[1]).unwrap_err(),
        "retained blob 0 and member 1 are not live backreferences"
    );
    let conflicting = vec![blob(0xab, 3, 1), blob(0xab, 4, 2)];
    assert_eq!(
        select_canonical_blob_sources(&conflicting, &members, &[0, 1], &[0, 1]).unwrap_err(),
        "retained blob identity BLB-abababababababababab has conflicting source records 0 and 1"
    );
}
