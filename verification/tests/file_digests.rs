use ait_core::generation::activation::{
    authority_file_digest, fingerprint_direct_authority_contents, observe_generation_file,
    AuthorityEntryKind,
};
use ait_core::generation::manifest::copied_file_manifest;
use sha2::{Digest, Sha256};

const ABC_SHA256: &str = "ba7816bf8f01cfea414140de5dae2223b00361a396177a9cb410ff61f20015ad";

fn hex(bytes: &[u8]) -> String {
    Sha256::digest(bytes)
        .iter()
        .map(|byte| format!("{byte:02x}"))
        .collect()
}

#[test]
fn an_observed_file_is_hashed_from_its_bytes() {
    let observed = observe_generation_file(b"abc");
    assert!(observed.is_file);
    assert_eq!(observed.byte_size, 3);
    assert_eq!(observed.header, b"abc".to_vec());
    assert_eq!(observed.sha256, ABC_SHA256);

    let table = [1u8, 0, 0, 0, 9, 9, 9];
    let observed = observe_generation_file(&table);
    assert_eq!(observed.header, vec![1, 0, 0, 0]);
    assert_eq!(observed.byte_size, 7);
    assert_eq!(observed.sha256, hex(&table));
}

#[test]
fn a_copied_file_manifest_carries_its_digest_and_record_count() {
    let mut tree = vec![1u8, 0, 0, 0];
    tree.extend_from_slice(&[7u8; 40]);
    let manifest = copied_file_manifest("local/tree.bin", &tree).unwrap();
    assert_eq!(manifest.relative_path, "local/tree.bin");
    assert_eq!(manifest.byte_size, 44);
    assert_eq!(manifest.sha256, hex(&tree));
    assert_eq!(manifest.record_count, Some(2));

    let other = copied_file_manifest(".ait/objects/pack.bin", b"abc").unwrap();
    assert_eq!(other.record_count, None);
    assert_eq!(other.sha256, ABC_SHA256);

    assert_eq!(
        copied_file_manifest("local/tree.bin", &tree[..43]).unwrap_err(),
        "Binary DB file is misaligned for 20-byte records: local/tree.bin"
    );
    assert_eq!(
        copied_file_manifest("local/tree.bin", &[1, 0]).unwrap_err(),
        "Binary DB file is shorter than its header: local/tree.bin"
    );
}

#[test]
fn authority_digests_feed_the_contents_fingerprint() {
    let digest = authority_file_digest("blob.bin", AuthorityEntryKind::File, b"abc");
    assert_eq!(digest.name, "blob.bin");
    assert_eq!(digest.byte_size, 3);
    assert_eq!(digest.sha256, ABC_SHA256);

    let mut input = b"blob.bin\0".to_vec();
    input.extend_from_slice(&3u64.to_le_bytes());
    input.extend_from_slice(ABC_SHA256.as_bytes());
    input.push(0);
    assert_eq!(
        fingerprint_direct_authority_contents(&[digest]).unwrap(),
        hex(&input)
    );
}
