use ait_core::generation::tree_identity::{
    blob_entry_object, canonicalize_repacked_tree_entries, tree_entry_object,
    tree_id_from_canonical_entries,
};
use ait_core::read::BinaryTreeEntryView;
use serde_json::Value;
use sha2::Digest;

fn blob(name: &str, target: &str, size: Option<u64>, mode: Option<&str>) -> BinaryTreeEntryView {
    BinaryTreeEntryView {
        entry_ordinal: 0,
        entry_name: name.to_string(),
        entry_type: "blob".to_string(),
        target_id: target.to_string(),
        size_bytes: size,
        mode: mode.map(str::to_string),
    }
}

fn tree(name: &str, target: &str) -> BinaryTreeEntryView {
    BinaryTreeEntryView {
        entry_ordinal: 0,
        entry_name: name.to_string(),
        entry_type: "tree".to_string(),
        target_id: target.to_string(),
        size_bytes: None,
        mode: Some("tree".to_string()),
    }
}

fn expected_id(entries: &[BinaryTreeEntryView]) -> String {
    let values: Vec<Value> = entries
        .iter()
        .map(|entry| {
            let mut object = serde_json::Map::new();
            object.insert("name".to_string(), Value::from(entry.entry_name.as_str()));
            object.insert("type".to_string(), Value::from(entry.entry_type.as_str()));
            object.insert("target_id".to_string(), Value::from(entry.target_id.as_str()));
            if entry.entry_type == "blob" {
                object.insert("size_bytes".to_string(), Value::from(entry.size_bytes.unwrap()));
                object.insert("mode".to_string(), Value::from(entry.mode.clone().unwrap()));
            }
            Value::Object(object)
        })
        .collect();
    let encoded = serde_json::to_string(&values).unwrap();
    let digest = sha2::Sha256::digest(encoded.as_bytes());
    let hex: String = digest[..10].iter().map(|byte| format!("{byte:02X}")).collect();
    format!("TRE-{hex}")
}

#[test]
fn tree_identity_hashes_the_compact_canonical_entry_list() {
    let entries = vec![
        blob("a.txt", "BLB-0102030405060708090a", Some(12), Some("100644")),
        tree("dir", "TRE-00000000000000000001"),
    ];
    let id = tree_id_from_canonical_entries(&entries).unwrap();
    assert_eq!(id, expected_id(&entries));
    assert!(id.starts_with("TRE-"));
    assert_eq!(id.len(), 24);
    let empty = tree_id_from_canonical_entries(&[]).unwrap();
    assert_eq!(empty, expected_id(&[]));
}

#[test]
fn tree_identity_refuses_incomplete_or_unknown_entries() {
    assert_eq!(
        tree_id_from_canonical_entries(&[blob("a", "BLB-1", None, Some("100644"))]).unwrap_err(),
        "tree entry \"a\" is missing canonical blob size"
    );
    assert_eq!(
        tree_id_from_canonical_entries(&[blob("a", "BLB-1", Some(1), None)]).unwrap_err(),
        "tree entry \"a\" is missing canonical blob mode"
    );
    let mut link = tree("l", "x");
    link.entry_type = "link".to_string();
    assert_eq!(
        tree_id_from_canonical_entries(&[link]).unwrap_err(),
        "tree entry \"l\" has unsupported type link"
    );
}

#[test]
fn retained_tree_entries_get_restored_sizes_and_name_order() {
    let canonical = vec![
        blob("a.txt", "BLB-AA", Some(3), Some("100644")),
        tree("b", "TRE-01"),
        blob("c.txt", "BLB-CC", Some(5), Some("100755")),
    ];
    let tree_id = expected_id(&canonical).to_ascii_lowercase();
    let stored = vec![
        blob("c.txt", "BLB-CC", None, Some("100755")),
        blob("a.txt", "BLB-AA", Some(3), Some("100644")),
        tree("b", "TRE-01"),
    ];
    let sizes = vec![("blb-aa".to_string(), 3), ("blb-cc".to_string(), 5)];
    let restored = canonicalize_repacked_tree_entries(&tree_id, stored, &sizes).unwrap();
    assert_eq!(restored, canonical);
}

#[test]
fn retained_tree_entries_that_cannot_be_kept_are_refused() {
    let sizes = vec![("blb-aa".to_string(), 3)];
    let outside =
        canonicalize_repacked_tree_entries("TRE-X", vec![blob("z", "BLB-ZZ", None, Some("1"))], &sizes)
            .unwrap_err();
    assert_eq!(
        outside,
        "retained tree TRE-X entry \"z\" references blob BLB-ZZ outside the retained canonical closure"
    );
    let disagree =
        canonicalize_repacked_tree_entries("TRE-X", vec![blob("a", "BLB-AA", Some(4), Some("1"))], &sizes)
            .unwrap_err();
    assert_eq!(
        disagree,
        "retained tree TRE-X entry \"a\" size disagrees with canonical blob BLB-AA"
    );
    let mut sized_tree = tree("d", "TRE-1");
    sized_tree.size_bytes = Some(1);
    assert!(canonicalize_repacked_tree_entries("TRE-X", vec![sized_tree], &sizes)
        .unwrap_err()
        .ends_with("gives a child tree a byte size"));
    let mut odd_mode = tree("d", "TRE-1");
    odd_mode.mode = Some("040000".to_string());
    assert_eq!(
        canonicalize_repacked_tree_entries("TRE-X", vec![odd_mode], &sizes).unwrap_err(),
        "retained tree TRE-X entry \"d\" has non-canonical tree mode Some(\"040000\")"
    );
    let wrong = canonicalize_repacked_tree_entries(
        "TRE-00000000000000000000",
        vec![blob("a", "BLB-AA", None, Some("1"))],
        &sizes,
    )
    .unwrap_err();
    assert!(wrong.starts_with(
        "retained tree TRE-00000000000000000000 content restores to different identity TRE-"
    ));
}

#[test]
fn canonical_entries_come_back_unchanged() {
    let canonical = vec![
        blob("a", "BLB-AA", Some(3), Some("100644")),
        blob("b", "BLB-AA", Some(3), Some("100644")),
        tree("c", "TRE-01"),
    ];
    let tree_id = expected_id(&canonical);
    let sizes = vec![("blb-aa".to_string(), 3)];
    let stored = vec![
        tree("c", "TRE-01"),
        blob("b", "BLB-AA", None, Some("100644")),
        blob("a", "BLB-AA", None, Some("100644")),
    ];
    let once = canonicalize_repacked_tree_entries(&tree_id, stored, &sizes).unwrap();
    let twice = canonicalize_repacked_tree_entries(&tree_id, once.clone(), &sizes).unwrap();
    assert_eq!(once, canonical);
    assert_eq!(twice, once);
}

#[test]
fn entry_objects_are_assembled_from_their_literals() {
    let blob: String = blob_entry_object("\"100644\"", "\"a.rs\"", 12, "\"BLB-1\"")
        .into_iter()
        .collect();
    assert_eq!(
        blob,
        r#"{"mode":"100644","name":"a.rs","size_bytes":12,"target_id":"BLB-1","type":"blob"}"#
    );
    let tree: String = tree_entry_object("\"src\"", "\"TRE-2\"").into_iter().collect();
    assert_eq!(tree, r#"{"name":"src","target_id":"TRE-2","type":"tree"}"#);
}
