use ait_core::json::{JsonField, JsonNumber, JsonValue};
use ait_core::local_support::{
    hash48_from_seed, json_i64_field, json_string_field, require_non_empty, required_json_text,
    required_json_u64,
};
use sha2::Digest;

fn object(fields: Vec<(&str, JsonValue)>) -> JsonValue {
    JsonValue::Object(
        fields
            .into_iter()
            .map(|(key, value)| JsonField { key: key.to_string(), value })
            .collect(),
    )
}

#[test]
fn required_text_is_trimmed_and_blank_is_refused() {
    assert_eq!(require_non_empty("  main ", "base_line").unwrap(), "main");
    assert_eq!(
        require_non_empty(" \t", "base_line").unwrap_err(),
        "base_line must not be empty"
    );
}

#[test]
fn typed_json_members_are_read_or_named_in_the_error() {
    let value = object(vec![
        ("name", JsonValue::String("pack".to_string())),
        ("count", JsonValue::Number(JsonNumber::Int(7))),
        ("negative", JsonValue::Number(JsonNumber::Int(-1))),
        ("huge", JsonValue::Number(JsonNumber::Other("18446744073709551615".to_string()))),
        ("too_huge", JsonValue::Number(JsonNumber::Other("18446744073709551616".to_string()))),
        ("fraction", JsonValue::Number(JsonNumber::Other("1.5".to_string()))),
    ]);
    assert_eq!(json_string_field(&value, "name").unwrap(), "pack");
    assert_eq!(
        json_string_field(&value, "count").unwrap_err(),
        "Expected string field `count`."
    );
    assert_eq!(json_i64_field(&value, "count").unwrap(), 7);
    assert_eq!(
        json_i64_field(&value, "name").unwrap_err(),
        "Expected integer field `name`."
    );
    assert_eq!(required_json_u64(&value, "count").unwrap(), 7);
    assert_eq!(required_json_u64(&value, "huge").unwrap(), u64::MAX);
    for field in ["negative", "too_huge", "fraction", "name", "absent"] {
        assert_eq!(
            required_json_u64(&value, field).unwrap_err(),
            format!("pack archive stats are missing integer {field}")
        );
    }
    assert_eq!(required_json_text(&value, "name").unwrap(), "pack");
    assert_eq!(
        required_json_text(&JsonValue::Null, "name").unwrap_err(),
        "pack archive stats are missing text name"
    );
}

#[test]
fn seed_hash_is_the_big_endian_head_of_its_digest() {
    let digest = sha2::Sha256::digest(b"seed");
    let expected = digest[..6]
        .iter()
        .fold(0u64, |acc, byte| (acc << 8) | u64::from(*byte));
    assert_eq!(hash48_from_seed(b"seed"), expected);
    assert!(hash48_from_seed(b"seed") < 1 << 48);
    assert_ne!(hash48_from_seed(b"seed"), hash48_from_seed(b"seed2"));
}
