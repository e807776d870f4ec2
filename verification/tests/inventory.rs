use ait_core::generation::activation::{AuthorityEntry, AuthorityEntryKind};
use ait_core::generation::inventory::{
    collect_copy_inputs, source_authority_files, CopyInput, CopyStrategy,
};

const BIN: &[&str] = &["blob.bin", "tree.bin", "tree_pack.bin"];
const IDX: &[&str] = &["blob_id.idx"];

fn file(name: &str, byte_size: u64, layout: u32) -> AuthorityEntry {
    AuthorityEntry {
        name: name.to_string(),
        kind: AuthorityEntryKind::File,
        byte_size,
        header: layout.to_le_bytes().to_vec(),
    }
}

fn dir(name: &str) -> AuthorityEntry {
    AuthorityEntry {
        name: name.to_string(),
        kind: AuthorityEntryKind::Directory,
        byte_size: 0,
        header: Vec::new(),
    }
}

#[test]
fn capture_copies_declared_files_and_canonicalizes_tree_locators() {
    let entries = vec![
        dir(".locks"),
        file("blob.bin", 68, 1),
        file("blob_id.idx", 4, 1),
        file("tree.bin", 24, 1),
    ];
    let inputs = collect_copy_inputs("/repo/.ait/binary-db", &entries, BIN, IDX).unwrap();
    assert_eq!(
        inputs,
        vec![
            CopyInput {
                source: "/repo/.ait/binary-db/blob.bin".to_string(),
                relative_path: "local/blob.bin".to_string(),
                strategy: CopyStrategy::Exact,
            },
            CopyInput {
                source: "/repo/.ait/binary-db/blob_id.idx".to_string(),
                relative_path: "local/blob_id.idx".to_string(),
                strategy: CopyStrategy::Exact,
            },
            CopyInput {
                source: "/repo/.ait/binary-db/tree.bin".to_string(),
                relative_path: "local/tree.bin".to_string(),
                strategy: CopyStrategy::CanonicalTreeLocators {
                    tree_pack_source: "/repo/.ait/binary-db/tree_pack.bin".to_string(),
                },
            },
        ]
    );
}

#[test]
fn capture_refuses_undeclared_header_only_and_non_file_entries() {
    let root = "/repo/.ait/binary-db/";
    assert_eq!(
        collect_copy_inputs(root, &[file("stash.bin", 12, 1)], BIN, IDX).unwrap_err(),
        "Binary DB authority contains an undeclared file: \"stash.bin\""
    );
    assert_eq!(
        collect_copy_inputs(root, &[file("blob.bin", 4, 1)], BIN, IDX).unwrap_err(),
        "Binary DB authority contains forbidden header-only file: \"blob.bin\""
    );
    assert_eq!(
        collect_copy_inputs(root, &[dir("packs")], BIN, IDX).unwrap_err(),
        "Binary DB authority contains an undeclared non-file path: /repo/.ait/binary-db/packs"
    );
    assert_eq!(
        collect_copy_inputs(root, &[file("blob.bin", 68, 1), file("blob.bin", 68, 1)], BIN, IDX)
            .unwrap_err(),
        "Binary DB generation has duplicate source path: \"local/blob.bin\""
    );
}

#[test]
fn upgrade_reads_declared_layout_one_files() {
    let entries = vec![dir(".locks"), file("blob.bin", 60, 1), file("blob_id.idx", 4, 1)];
    let files = source_authority_files("src", &entries, BIN, IDX).unwrap();
    assert_eq!(
        files,
        vec![
            ("blob.bin".to_string(), "src/blob.bin".to_string()),
            ("blob_id.idx".to_string(), "src/blob_id.idx".to_string()),
        ]
    );
    assert_eq!(
        source_authority_files("src", &[file("tree.bin", 24, 2)], BIN, IDX).unwrap_err(),
        "u64-second upgrade requires layout_id 1, found 2 at src/tree.bin"
    );
    let mut short = file("tree.bin", 2, 1);
    short.header.truncate(2);
    assert_eq!(
        source_authority_files("src", &[short], BIN, IDX).unwrap_err(),
        "failed to read src/tree.bin layout header: failed to fill whole buffer"
    );
    assert_eq!(
        source_authority_files("src", &[file("notes.txt", 9, 1)], BIN, IDX).unwrap_err(),
        "Binary DB source authority contains an undeclared file: \"notes.txt\""
    );
}
