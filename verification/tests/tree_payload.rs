use ait_core::error::BinaryDbErrorKind;
use ait_core::json::{JsonField, JsonNumber, JsonValue};
use ait_core::read::BinaryTreeEntryView;
use ait_core::tree_payload::{
    join_path, normalize_tree_payload, tree_entry_view_from_json, tree_entry_views_from_payload,
    validate_tree_entry_name,
};

const BLOB: &str = "BLB-00112233445566778899";
const TREE: &str = "TRE-ABCD0102030405060708";

fn text(value: &str) -> JsonValue {
    JsonValue::String(value.to_string())
}

fn object(fields: Vec<(&str, JsonValue)>) -> JsonValue {
    JsonValue::Object(
        fields
            .into_iter()
            .map(|(key, value)| JsonField { key: key.to_string(), value })
            .collect(),
    )
}

fn row(name: &str, kind: &str, target: &str) -> JsonValue {
    object(vec![
        ("entry_name", text(name)),
        ("entry_type", text(kind)),
        ("target_id", text(target)),
    ])
}

fn member<'a>(value: &'a JsonValue, key: &str) -> &'a JsonValue {
    value.get(key).unwrap_or_else(|| panic!("missing member {key}"))
}

fn string_of(value: &JsonValue) -> &str {
    match value {
        JsonValue::String(text) => text,
        other => panic!("expected a string, got {other:?}"),
    }
}

fn items_of(value: &JsonValue) -> &Vec<JsonValue> {
    match value {
        JsonValue::Array(items) => items,
        other => panic!("expected an array, got {other:?}"),
    }
}

fn keys_of(value: &JsonValue) -> Vec<String> {
    match value {
        JsonValue::Object(fields) => fields.iter().map(|field| field.key.clone()).collect(),
        other => panic!("expected an object, got {other:?}"),
    }
}

#[test]
fn entry_names_must_be_one_safe_segment() {
    assert!(validate_tree_entry_name("README.md").is_ok());
    assert!(validate_tree_entry_name("...").is_ok());
    let empty = validate_tree_entry_name("").unwrap_err();
    assert_eq!(empty.kind, BinaryDbErrorKind::Invalid);
    assert_eq!(empty.message, "tree entry name must not be empty");
    for name in [".", "..", "a/b", "a\\b", "a\0b"] {
        let error = validate_tree_entry_name(name).unwrap_err();
        assert_eq!(error.kind, BinaryDbErrorKind::Invalid);
        assert_eq!(
            error.message,
            format!("tree entry name must be a single safe path segment: {name}")
        );
    }
}

#[test]
fn paths_join_below_a_prefix() {
    assert_eq!(join_path("", "src"), "src");
    assert_eq!(join_path("crates/core", "lib.rs"), "crates/core/lib.rs");
}

#[test]
fn an_entry_row_becomes_its_view() {
    let full = object(vec![
        ("entry_name", text("lib.rs")),
        ("entry_type", text("blob")),
        ("target_id", text(BLOB)),
        ("size_bytes", JsonValue::Number(JsonNumber::Int(42))),
        ("mode", text("100644")),
    ]);
    assert_eq!(
        tree_entry_view_from_json(3, &full).unwrap(),
        BinaryTreeEntryView {
            entry_ordinal: 3,
            entry_name: "lib.rs".to_string(),
            entry_type: "blob".to_string(),
            target_id: BLOB.to_string(),
            size_bytes: Some(42),
            mode: Some("100644".to_string()),
        }
    );
    let loose = object(vec![
        ("entry_name", text("src")),
        ("entry_type", text("tree")),
        ("target_id", text(TREE)),
        ("size_bytes", text("many")),
        ("mode", JsonValue::Number(JsonNumber::Int(7))),
    ]);
    let view = tree_entry_view_from_json(0, &loose).unwrap();
    assert_eq!(view.size_bytes, None);
    assert_eq!(view.mode, None);
}

#[test]
fn entry_rows_are_refused_with_the_reason() {
    let cases: Vec<(JsonValue, BinaryDbErrorKind, String)> = vec![
        (
            text("row"),
            BinaryDbErrorKind::Corruption,
            "tree-pack entry must be an object".to_string(),
        ),
        (
            object(vec![("entry_type", text("blob"))]),
            BinaryDbErrorKind::Corruption,
            "tree-pack entry is missing entry_name".to_string(),
        ),
        (
            row("a/b", "blob", BLOB),
            BinaryDbErrorKind::Invalid,
            "tree entry name must be a single safe path segment: a/b".to_string(),
        ),
        (
            object(vec![("entry_name", text("a"))]),
            BinaryDbErrorKind::Corruption,
            "tree-pack entry is missing entry_type".to_string(),
        ),
        (
            object(vec![("entry_name", text("a")), ("entry_type", text("blob"))]),
            BinaryDbErrorKind::Corruption,
            "tree-pack entry is missing target_id".to_string(),
        ),
        (
            row("a", "link", BLOB),
            BinaryDbErrorKind::Corruption,
            "unsupported tree-pack entry type: link".to_string(),
        ),
        (
            row("a", "blob", TREE),
            BinaryDbErrorKind::Invalid,
            format!("id `{TREE}` must start with BLB-"),
        ),
        (
            row("a", "tree", "TRE-0011"),
            BinaryDbErrorKind::Invalid,
            "id `TRE-0011` has 4 hex chars, expected 20".to_string(),
        ),
    ];
    for (value, kind, message) in cases {
        let error = tree_entry_view_from_json(0, &value).unwrap_err();
        assert_eq!(error.kind, kind);
        assert_eq!(error.message, message);
    }
    let error = tree_entry_view_from_json(1usize << 32, &row("a", "blob", BLOB)).unwrap_err();
    assert_eq!(error.kind, BinaryDbErrorKind::Corruption);
    assert_eq!(error.message, "tree-pack entry ordinal overflows u32");
}

#[test]
fn payload_entries_come_back_in_name_order_with_their_positions() {
    let payload = object(vec![
        ("tree_id", text(TREE)),
        (
            "entries",
            JsonValue::Array(vec![
                row("zeta", "blob", BLOB),
                row("alpha", "tree", TREE),
                row("mid", "blob", BLOB),
            ]),
        ),
    ]);
    let views = tree_entry_views_from_payload(&payload).unwrap();
    let order: Vec<(&str, u32)> = views
        .iter()
        .map(|view| (view.entry_name.as_str(), view.entry_ordinal))
        .collect();
    assert_eq!(order, vec![("alpha", 1), ("mid", 2), ("zeta", 0)]);

    let missing = tree_entry_views_from_payload(&object(vec![("tree_id", text(TREE))])).unwrap_err();
    assert_eq!(missing.kind, BinaryDbErrorKind::Corruption);
    assert_eq!(missing.message, "tree-pack payload is missing entries");

    let bad_row = object(vec![(
        "entries",
        JsonValue::Array(vec![row("ok", "blob", BLOB), row("", "blob", BLOB)]),
    )]);
    let error = tree_entry_views_from_payload(&bad_row).unwrap_err();
    assert_eq!(error.message, "tree entry name must not be empty");
}

#[test]
fn a_bare_array_payload_is_the_expected_trees_entries() {
    let rows = vec![object(vec![
        ("entry_name", text("a")),
        ("tree_id", text("kept")),
    ])];
    let normal = normalize_tree_payload(TREE, JsonValue::Array(rows)).unwrap();
    assert_eq!(keys_of(&normal), vec!["entries", "tree_id"]);
    assert_eq!(string_of(member(&normal, "tree_id")), TREE);
    let entries = items_of(member(&normal, "entries"));
    assert_eq!(entries.len(), 1);
    assert_eq!(string_of(member(&entries[0], "tree_id")), "kept");
}

#[test]
fn object_payloads_give_their_rows_without_row_tree_ids() {
    let payload = object(vec![
        ("tree_id", text("TRE-FROM-PAYLOAD")),
        (
            "rows",
            JsonValue::Array(vec![
                object(vec![("entry_name", text("a")), ("tree_id", text("drop me"))]),
                text("not an object"),
            ]),
        ),
    ]);
    let normal = normalize_tree_payload(TREE, payload).unwrap();
    assert_eq!(string_of(member(&normal, "tree_id")), "TRE-FROM-PAYLOAD");
    let entries = items_of(member(&normal, "entries"));
    assert_eq!(keys_of(&entries[0]), vec!["entry_name"]);
    assert_eq!(string_of(&entries[1]), "not an object");

    let without_id = object(vec![("entries", JsonValue::Array(vec![]))]);
    let normal = normalize_tree_payload(TREE, without_id).unwrap();
    assert_eq!(string_of(member(&normal, "tree_id")), TREE);
    assert!(items_of(member(&normal, "entries")).is_empty());
}

#[test]
fn a_nested_payload_object_may_name_the_tree_and_hold_the_rows() {
    let nested = object(vec![
        ("tree_id", text("TRE-OUTER")),
        (
            "entries",
            object(vec![
                ("tree_id", text("TRE-INNER")),
                ("rows", JsonValue::Array(vec![row("x", "blob", BLOB)])),
            ]),
        ),
    ]);
    let normal = normalize_tree_payload(TREE, nested).unwrap();
    assert_eq!(string_of(member(&normal, "tree_id")), "TRE-INNER");
    assert_eq!(items_of(member(&normal, "entries")).len(), 1);

    let inherits = object(vec![
        ("tree_id", text("TRE-OUTER")),
        ("rows", object(vec![("entries", JsonValue::Array(vec![]))])),
    ]);
    let normal = normalize_tree_payload(TREE, inherits).unwrap();
    assert_eq!(string_of(member(&normal, "tree_id")), "TRE-OUTER");
}

#[test]
fn malformed_payloads_are_corruption() {
    let cases: Vec<(JsonValue, &str)> = vec![
        (text("tree"), "tree-pack payload must be an object or array"),
        (object(vec![("tree_id", text(TREE))]), "tree-pack payload is missing rows"),
        (
            object(vec![("entries", JsonValue::Number(JsonNumber::Int(1)))]),
            "tree-pack rows must be an array or object",
        ),
        (
            object(vec![("entries", object(vec![("entries", text("x")), ("rows", JsonValue::Array(vec![]))]))]),
            "nested tree-pack payload is missing rows",
        ),
        (
            object(vec![("rows", object(vec![("tree_id", text(TREE))]))]),
            "nested tree-pack payload is missing rows",
        ),
    ];
    for (payload, message) in cases {
        let error = normalize_tree_payload(TREE, payload).unwrap_err();
        assert_eq!(error.kind, BinaryDbErrorKind::Corruption);
        assert_eq!(error.message, message);
    }
}
