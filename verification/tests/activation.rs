use ait_core::generation::activation::{
    absent_authority_state_fingerprint, activation_failure, binary_db_activation_lock_root,
    check_activation_freshness, check_activation_precondition, check_client_manifest_header,
    fingerprint_direct_authority_contents, required_layout_id_list, text_less,
    validate_direct_authority, validate_generation_file_path, validate_local_binary_file,
    validate_lock_directory, verify_generation_manifest, AuthorityEntry, AuthorityEntryKind,
    AuthorityFileDigest, AuthorityReplacementStrategy, ClientManifest, ClientManifestFile,
    LockEntry, ObservedGenerationFile, CLIENT_MANIFEST_SCHEMA,
};
use sha2::{Digest, Sha256};
use ait_core::generation::capture::CaptureBinaryDbGenerationOptions;
use ait_core::generation::manifest::{fingerprint_files, GenerationFileManifest};
use ait_core::generation::upgrade::{time_width_plan, widen_time_record_file};

const BIN: &[&str] = &["blob.bin", "task.bin", "tree.bin"];
const IDX: &[&str] = &["blob_id.idx"];

fn digest(c: char) -> String {
    std::iter::repeat(c).take(64).collect()
}

fn manifest_with(files: Vec<ClientManifestFile>) -> ClientManifest {
    let entries: Vec<GenerationFileManifest> = files
        .iter()
        .map(|f| GenerationFileManifest {
            relative_path: f.relative_path.clone(),
            byte_size: f.byte_size,
            sha256: f.sha256.clone(),
            record_count: None,
        })
        .collect();
    ClientManifest {
        schema: CLIENT_MANIFEST_SCHEMA.to_string(),
        label: "demo".to_string(),
        worker_count: 2,
        layout_ids: required_layout_id_list(),
        source_authority_fingerprint: digest('a'),
        content_fingerprint: fingerprint_files(&entries),
        files,
        validation_status: "passed".to_string(),
    }
}

fn two_files() -> Vec<ClientManifestFile> {
    vec![
        ClientManifestFile {
            relative_path: ".ait/objects/packs/PCK-0123456789AB.zstpack".to_string(),
            byte_size: 10,
            sha256: digest('b'),
        },
        ClientManifestFile {
            relative_path: "local/blob.bin".to_string(),
            byte_size: 68,
            sha256: digest('c'),
        },
    ]
}

fn observed(file: &ClientManifestFile, header: &[u8]) -> Option<ObservedGenerationFile> {
    Some(ObservedGenerationFile {
        is_file: true,
        byte_size: file.byte_size,
        header: header.to_vec(),
        sha256: file.sha256.clone(),
    })
}

#[test]
fn manifest_paths_must_be_declared_schema_leaves_or_canonical_packs() {
    validate_generation_file_path("local/blob.bin", BIN, IDX).unwrap();
    validate_generation_file_path("local/blob_id.idx", BIN, IDX).unwrap();
    validate_generation_file_path(".ait/objects/tree-packs/TPK-00000000000F.zstpack", BIN, IDX)
        .unwrap();
    let cases = [
        ("/local/blob.bin", "unsafe"),
        ("local/../blob.bin", "unsafe"),
        ("local/x/blob.bin", "direct schema leaves"),
        ("local/stash.bin", "undeclared authority path"),
        ("local/blob.txt", "undeclared authority path"),
        (".ait/objects/packs/PCK-0123456789ab.zstpack", "undeclared pack path"),
        ("other/blob.bin", "outside local/ and .ait/objects/"),
    ];
    for (path, fragment) in cases {
        let error = validate_generation_file_path(path, BIN, IDX).unwrap_err();
        assert!(error.contains(fragment), "{path}: {error}");
    }
}

#[test]
fn text_order_is_lexicographic_with_prefixes_first() {
    assert!(text_less("local/a", "local/b"));
    assert!(text_less("local", "local/a"));
    assert!(!text_less("local/b", "local/a"));
    assert!(!text_less("same", "same"));
    assert!(text_less(".ait/objects", "local/blob.bin"));
}

#[test]
fn manifest_header_checks_schema_label_workers_layouts_and_digests() {
    let manifest = manifest_with(two_files());
    check_client_manifest_header(&manifest, "demo").unwrap();
    let error = check_client_manifest_header(&manifest, "other").unwrap_err();
    assert!(error.contains("repository mismatch: expected \"other\", got \"demo\""));

    let mut bad = manifest.clone();
    bad.worker_count = 0;
    assert!(check_client_manifest_header(&bad, "demo").unwrap_err().contains("worker_count"));

    let mut bad = manifest.clone();
    bad.layout_ids.pop();
    let error = check_client_manifest_header(&bad, "demo").unwrap_err();
    assert!(error.contains("layout map is unsupported"));

    let mut bad = manifest.clone();
    bad.validation_status = "failed".to_string();
    assert!(check_client_manifest_header(&bad, "demo").unwrap_err().contains("did not pass"));

    let mut bad = manifest.clone();
    bad.content_fingerprint = "ABC".to_string();
    assert!(check_client_manifest_header(&bad, "demo")
        .unwrap_err()
        .contains("content_fingerprint is not SHA-256"));

    assert_eq!(check_activation_precondition(&manifest, "demo").unwrap(), digest('a'));
}

#[test]
fn a_manifest_matching_its_files_verifies() {
    let files = two_files();
    let manifest = manifest_with(files.clone());
    let seen = vec![observed(&files[0], &[]), observed(&files[1], &[1, 0, 0, 0])];
    let actual: Vec<String> = files.iter().map(|f| f.relative_path.clone()).collect();
    verify_generation_manifest(&manifest, "demo", BIN, IDX, &seen, &actual).unwrap();
}

#[test]
fn manifest_files_are_checked_against_what_is_present() {
    let files = two_files();
    let manifest = manifest_with(files.clone());
    let actual: Vec<String> = files.iter().map(|f| f.relative_path.clone()).collect();

    let seen = vec![observed(&files[0], &[]), None];
    let error = verify_generation_manifest(&manifest, "demo", BIN, IDX, &seen, &actual).unwrap_err();
    assert!(error.contains("local/blob.bin is missing"));

    let mut wrong = observed(&files[1], &[1, 0, 0, 0]).unwrap();
    wrong.sha256 = digest('d');
    let seen = vec![observed(&files[0], &[]), Some(wrong)];
    let error = verify_generation_manifest(&manifest, "demo", BIN, IDX, &seen, &actual).unwrap_err();
    assert!(error.contains("checksum mismatch at local/blob.bin"));

    let seen = vec![observed(&files[0], &[]), observed(&files[1], &[2, 0, 0, 0])];
    let error = verify_generation_manifest(&manifest, "demo", BIN, IDX, &seen, &actual).unwrap_err();
    assert!(error.contains("unsupported layout 2"));

    let seen = vec![observed(&files[0], &[]), observed(&files[1], &[1, 0, 0, 0])];
    let mut extra = actual.clone();
    extra.push("local/task.bin".to_string());
    let error = verify_generation_manifest(&manifest, "demo", BIN, IDX, &seen, &extra).unwrap_err();
    assert!(error.contains("undeclared=Some(\"local/task.bin\")"));

    let error =
        verify_generation_manifest(&manifest, "demo", BIN, IDX, &seen, &actual[..1]).unwrap_err();
    assert!(error.contains("missing=Some(\"local/blob.bin\")"));

    let mut unsorted = files.clone();
    unsorted.reverse();
    let reordered = manifest_with(unsorted.clone());
    let seen = vec![observed(&unsorted[0], &[1, 0, 0, 0]), observed(&unsorted[1], &[])];
    let error = verify_generation_manifest(&reordered, "demo", BIN, IDX, &seen, &actual).unwrap_err();
    assert!(error.contains("strictly sorted"));

    let mut tampered = manifest.clone();
    tampered.content_fingerprint = digest('e');
    let seen = vec![observed(&files[0], &[]), observed(&files[1], &[1, 0, 0, 0])];
    let error = verify_generation_manifest(&tampered, "demo", BIN, IDX, &seen, &actual).unwrap_err();
    assert!(error.contains("fingerprint mismatch"));
}

#[test]
fn header_only_and_misaligned_local_tables_are_refused() {
    let files = vec![ClientManifestFile {
        relative_path: "local/blob.bin".to_string(),
        byte_size: 4,
        sha256: digest('c'),
    }];
    let manifest = manifest_with(files.clone());
    let seen = vec![observed(&files[0], &[1, 0, 0, 0])];
    let actual = vec!["local/blob.bin".to_string()];
    let error = verify_generation_manifest(&manifest, "demo", BIN, IDX, &seen, &actual).unwrap_err();
    assert!(error.contains("forbidden header-only file"));

    let error = validate_local_binary_file("local/blob.bin", 70, &[1, 0, 0, 0]).unwrap_err();
    assert!(error.contains("misaligned for 64-byte records"));
    let error = validate_local_binary_file("local/blob.bin", 2, &[1, 0]).unwrap_err();
    assert!(error.contains("no complete layout header"));
    validate_local_binary_file("local/blob_id.idx", 9, &[1, 0, 0, 0]).unwrap();
}

#[test]
fn activation_lock_root_lies_below_the_repository_ait_directory() {
    assert_eq!(
        binary_db_activation_lock_root("/repo"),
        "/repo/.ait/.binary-db-generation-activation"
    );
    assert_eq!(
        binary_db_activation_lock_root("/repo/"),
        "/repo/.ait/.binary-db-generation-activation"
    );
}

#[test]
fn capture_options_need_jobs_a_fresh_output_and_a_final_component() {
    let options = CaptureBinaryDbGenerationOptions {
        repo_root: "/repo".to_string(),
        output_root: "/tmp/out".to_string(),
        jobs: 2,
    };
    assert_eq!(options.clone().validate(false).unwrap(), options);
    let error = options.clone().validate(true).unwrap_err();
    assert!(error.contains("must not already exist"));
    let mut no_jobs = options.clone();
    no_jobs.jobs = 0;
    assert_eq!(no_jobs.validate(false).unwrap_err(), "--jobs must be at least 1");
    let mut parent = options;
    parent.output_root = "/tmp/..".to_string();
    assert!(parent.validate(false).unwrap_err().contains("final path component"));
}

#[test]
fn a_whole_predecessor_table_widens_record_by_record() {
    let plan = time_width_plan("object_pack.bin").unwrap();
    let mut source = 1_u32.to_le_bytes().to_vec();
    for seconds in [7_u32, 9_u32] {
        let mut record: Vec<u8> = (0..24).collect();
        record.extend(seconds.to_le_bytes());
        source.extend(record);
    }
    let (bytes, manifest) = widen_time_record_file(&source, &plan).unwrap();
    let mut expected = 1_u32.to_le_bytes().to_vec();
    for seconds in [7_u64, 9_u64] {
        expected.extend((0..24).collect::<Vec<u8>>());
        expected.extend(seconds.to_le_bytes());
    }
    assert_eq!(bytes, expected);
    assert_eq!(manifest.relative_path, "local/object_pack.bin");
    assert_eq!(manifest.byte_size, 68);
    assert_eq!(manifest.record_count, Some(2));

    let error = widen_time_record_file(&1_u32.to_le_bytes(), &plan).unwrap_err();
    assert!(error.contains("non-empty explicit 28-byte"));
    let mut wrong_layout = source.clone();
    wrong_layout[0] = 3;
    let error = widen_time_record_file(&wrong_layout, &plan).unwrap_err();
    assert!(error.contains("not layout_id 1"));
}

fn hex(bytes: &[u8]) -> String {
    bytes.iter().map(|b| format!("{b:02x}")).collect()
}

fn lock(name: &str, kind: AuthorityEntryKind) -> LockEntry {
    LockEntry { name: name.to_string(), kind }
}

fn authority_file(name: &str, size: u64) -> AuthorityEntry {
    AuthorityEntry {
        name: name.to_string(),
        kind: AuthorityEntryKind::File,
        byte_size: size,
        header: vec![1, 0, 0, 0],
    }
}

#[test]
fn lock_directories_hold_only_the_active_lock_files() {
    validate_lock_directory(&[], &[]).unwrap();
    let root = [lock("binary-db", AuthorityEntryKind::Directory)];
    validate_lock_directory(&root, &[lock("gc.write.lock", AuthorityEntryKind::File)]).unwrap();
    assert!(validate_lock_directory(&root, &[lock("stray.lock", AuthorityEntryKind::File)])
        .unwrap_err()
        .contains("undeclared entry: stray.lock"));
    assert!(validate_lock_directory(&[lock("other", AuthorityEntryKind::Directory)], &[])
        .unwrap_err()
        .contains("undeclared lock directory entry"));
    assert!(validate_lock_directory(&[lock("binary-db", AuthorityEntryKind::Symlink)], &[])
        .unwrap_err()
        .contains("must be a direct directory"));
}

#[test]
fn a_direct_authority_fingerprints_its_declared_files_by_name_and_size() {
    let entries = vec![
        AuthorityEntry {
            name: ".locks".to_string(),
            kind: AuthorityEntryKind::Directory,
            byte_size: 0,
            header: Vec::new(),
        },
        authority_file("blob.bin", 68),
        authority_file("blob_id.idx", 18),
    ];
    let fingerprint = validate_direct_authority(&entries, &[], &[], BIN, IDX).unwrap();
    let mut input = Vec::new();
    for (name, size) in [("blob.bin", 68_u64), ("blob_id.idx", 18_u64)] {
        input.extend(name.as_bytes());
        input.push(0);
        input.extend(size.to_le_bytes());
        input.push(0);
    }
    assert_eq!(fingerprint, hex(&Sha256::digest(&input)));

    let mut link = entries.clone();
    link[1].kind = AuthorityEntryKind::Symlink;
    assert!(validate_direct_authority(&link, &[], &[], BIN, IDX)
        .unwrap_err()
        .contains("forbidden symbolic link"));
    let stray = vec![authority_file("notes.txt", 9)];
    assert!(validate_direct_authority(&stray, &[], &[], BIN, IDX)
        .unwrap_err()
        .contains("undeclared schema path"));
    let header_only = vec![authority_file("blob.bin", 4)];
    assert!(validate_direct_authority(&header_only, &[], &[], BIN, IDX)
        .unwrap_err()
        .contains("header-only"));
}

#[test]
fn authority_contents_fingerprint_covers_names_sizes_and_digests() {
    let entries = vec![
        AuthorityFileDigest {
            name: ".locks".to_string(),
            kind: AuthorityEntryKind::Directory,
            byte_size: 0,
            sha256: String::new(),
        },
        AuthorityFileDigest {
            name: "blob.bin".to_string(),
            kind: AuthorityEntryKind::File,
            byte_size: 68,
            sha256: digest('c'),
        },
    ];
    let fingerprint = fingerprint_direct_authority_contents(&entries).unwrap();
    let entries_as_manifest = vec![GenerationFileManifest {
        relative_path: "blob.bin".to_string(),
        byte_size: 68,
        sha256: digest('c'),
        record_count: None,
    }];
    assert_eq!(fingerprint, fingerprint_files(&entries_as_manifest));
    let mut other = entries.clone();
    other[0].name = "tmp".to_string();
    assert!(fingerprint_direct_authority_contents(&other)
        .unwrap_err()
        .contains("non-file entry: tmp"));
    assert_eq!(
        absent_authority_state_fingerprint(),
        hex(&Sha256::digest(b"ait.binary-db-authority-state.v1\0absent"))
    );
}

#[test]
fn stale_authority_fingerprints_are_refused() {
    let captured = digest('a');
    check_activation_freshness(None, &captured, &captured).unwrap();
    let error = check_activation_freshness(None, &captured, &digest('b')).unwrap_err();
    assert!(error.contains("stale Binary DB generation"));
    let explicit = digest('b');
    check_activation_freshness(Some(&explicit), &captured, &explicit).unwrap();
    let error = check_activation_freshness(Some("nope"), &captured, "nope").unwrap_err();
    assert!(error.contains("is not SHA-256"));
}

#[test]
fn replacement_strategies_and_failures_are_reported_by_name() {
    assert_eq!(AuthorityReplacementStrategy::AtomicExchange.persisted_name(), "atomic_exchange");
    assert!(!AuthorityReplacementStrategy::ActivationLockTwoPhaseRename.single_syscall_atomic());
    assert!(AuthorityReplacementStrategy::RenameIntoEmpty.single_syscall_atomic());
    assert_eq!(
        activation_failure("sync failed", &Ok(())),
        "sync failed; direct authority rollback completed"
    );
    assert_eq!(
        activation_failure("sync failed", &Err("busy".to_string())),
        "sync failed; direct authority rollback failed: busy"
    );
}
