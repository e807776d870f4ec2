use ait_core::generation::manifest::{fingerprint_files, fixed_record_count, GenerationFileManifest};
use sha2::{Digest, Sha256};

#[test]
fn fixed_record_counter_omits_retired_tables() {
    assert_eq!(
        fixed_record_count("local/workflow_record.bin", 4 + 2 * 12).unwrap(),
        None
    );
    assert_eq!(
        fixed_record_count("local/snapshot_parent_edge.bin", 4 + 12).unwrap(),
        None
    );
}

#[test]
fn fixed_record_counter_counts_live_tables_and_rejects_misaligned_files() {
    assert_eq!(fixed_record_count("local/snapshot.bin", 4 + 88 * 3).unwrap(), Some(3));
    assert_eq!(fixed_record_count("local/plan_revision.bin", 4).unwrap(), Some(0));
    assert_eq!(fixed_record_count("snapshot.bin", 4 + 88).unwrap(), None);
    assert_eq!(
        fixed_record_count("local/tree.bin", 3).unwrap_err(),
        "Binary DB file is shorter than its header: local/tree.bin"
    );
    assert_eq!(
        fixed_record_count("local/tree.bin", 4 + 19).unwrap_err(),
        "Binary DB file is misaligned for 20-byte records: local/tree.bin"
    );
}

#[test]
fn fingerprint_hashes_every_path_size_and_digest_in_order() {
    let files = vec![
        GenerationFileManifest {
            relative_path: "local/blob.bin".to_string(),
            byte_size: 68,
            sha256: "ab".to_string(),
            record_count: Some(1),
        },
        GenerationFileManifest {
            relative_path: "local/tree.bin".to_string(),
            byte_size: 4,
            sha256: "cd".to_string(),
            record_count: None,
        },
    ];
    let mut hasher = Sha256::new();
    for file in &files {
        hasher.update(file.relative_path.as_bytes());
        hasher.update([0]);
        hasher.update(file.byte_size.to_le_bytes());
        hasher.update(file.sha256.as_bytes());
        hasher.update([0]);
    }
    let expected: String = hasher
        .finalize()
        .iter()
        .map(|byte| format!("{byte:02x}"))
        .collect();
    assert_eq!(fingerprint_files(&files), expected);
    assert_eq!(
        fingerprint_files(&[]),
        "e3b0c44298fc1c149afbf4c8996fb92427ae41e4649b934ca495991b7852b855"
    );
    assert_ne!(fingerprint_files(&files[..1]), fingerprint_files(&files));
}
