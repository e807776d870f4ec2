use ait_core::change_json::ChangeJson;
use ait_core::json::{JsonField, JsonNumber, JsonValue};
use serde_json::Value;

fn parse(text: &str) -> Value {
    serde_json::from_str(text).unwrap()
}

fn model(value: &Value) -> JsonValue {
    match value {
        Value::Null => JsonValue::Null,
        Value::Bool(b) => JsonValue::Bool(*b),
        Value::Number(n) => match n.as_i64() {
            Some(i) => JsonValue::Number(JsonNumber::Int(i)),
            None => JsonValue::Number(JsonNumber::Other(n.to_string())),
        },
        Value::String(s) => JsonValue::String(s.clone()),
        Value::Array(items) => JsonValue::Array(items.iter().map(model).collect()),
        Value::Object(map) => JsonValue::Object(
            map.iter()
                .map(|(key, value)| JsonField {
                    key: key.clone(),
                    value: model(value),
                })
                .collect(),
        ),
    }
}

fn plain(value: &JsonValue) -> Value {
    match value {
        JsonValue::Null => Value::Null,
        JsonValue::Bool(b) => Value::Bool(*b),
        JsonValue::Number(JsonNumber::Int(i)) => Value::from(*i),
        JsonValue::Number(JsonNumber::Other(text)) => serde_json::from_str(text).unwrap(),
        JsonValue::String(s) => Value::String(s.clone()),
        JsonValue::Array(items) => Value::Array(items.iter().map(plain).collect()),
        JsonValue::Object(fields) => Value::Object(
            fields
                .iter()
                .map(|field| (field.key.clone(), plain(&field.value)))
                .collect(),
        ),
    }
}

#[test]
fn change_json_owns_linked_change_lookup_payload() {
    let json = ChangeJson::stateless();

    let rows = model(&parse(
        r#"[
            {
                "task_id": "RCT-1",
                "changes": [{"change_id": "RCC-1"}, {"change_id": "RCC-2"}]
            }
        ]"#,
    ));
    let payload = plain(
        &json
            .build_linked_change_lookup_payload(Some(&rows))
            .expect("linked change payload"),
    );

    assert_eq!(payload["linked_change_count"], 2);
    assert_eq!(payload["change_links_by_task"][0]["task_id"], "RCT-1");
    assert_eq!(
        payload["change_links_by_task"][0]["changes"][1]["change_id"],
        "RCC-2"
    );
}

#[test]
fn change_json_normalizes_rolling_composite_change_ids_without_new_identity_fields() {
    let json = ChangeJson::stateless();
    let normalized = plain(
        &json
            .normalize_remote_change_payload(
                &model(&parse(
                    r#"{"task_id": "RCT-1029", "change_id": "RCT-1029/C-01", "status": "draft"}"#,
                )),
                Some("RCT-1029"),
            )
            .expect("normalize rolling response"),
    );

    assert_eq!(normalized["task_id"], "RCT-1029");
    assert_eq!(normalized["change_id"], "C-01");
    assert_eq!(normalized["change_ref"], "RCT-1029/C-01");
    assert_eq!(
        json.rolling_server_change_id(Some("RCT-1029"), "C-01")
            .expect("rolling server locator"),
        "RCT-1029/C-01"
    );
    assert!(json
        .rolling_server_change_id(None, "C-01")
        .expect_err("short id without task context must fail")
        .contains("refusing an ambiguous repository-wide lookup"));
}

#[test]
fn change_json_normalizes_nested_change_detail_without_flattening_the_envelope() {
    let normalized = plain(
        &ChangeJson::stateless()
            .normalize_remote_change_detail_payload(
                &model(&parse(
                    r#"{
                        "selected_patchset": {"patchset_id": "RP-1"},
                        "change": {
                            "task_id": "RCT-1029",
                            "change_id": "RCT-1029/C-01",
                            "status": "review"
                        }
                    }"#,
                )),
                Some("RCT-1029"),
            )
            .expect("normalize nested change detail"),
    );

    assert_eq!(normalized["selected_patchset"]["patchset_id"], "RP-1");
    assert_eq!(normalized["change"]["change_id"], "C-01");
    assert_eq!(normalized["change"]["change_ref"], "RCT-1029/C-01");
}

#[test]
fn change_json_normalizes_task_audit_change_rows_with_task_context() {
    let normalized = plain(
        &ChangeJson::stateless()
            .normalize_remote_task_audit_payload(
                &model(&parse(
                    r#"{
                        "task_id": "RCT-1029",
                        "changes": [
                            {
                                "task_id": "RCT-1029",
                                "change_id": "RCT-1029/C-01",
                                "status": "landed"
                            },
                            {
                                "change": {
                                    "task_id": "RCT-1029",
                                    "change_id": "RCT-1029/C-02",
                                    "status": "draft"
                                },
                                "readiness": {"state": "pending"}
                            }
                        ]
                    }"#,
                )),
                "RCT-1029",
            )
            .expect("normalize Task audit"),
    );

    assert_eq!(normalized["changes"][0]["change_id"], "C-01");
    assert_eq!(normalized["changes"][0]["change_ref"], "RCT-1029/C-01");
    assert_eq!(normalized["changes"][1]["change"]["change_id"], "C-02");
    assert_eq!(
        normalized["changes"][1]["change"]["change_ref"],
        "RCT-1029/C-02"
    );
    assert_eq!(normalized["changes"][1]["readiness"]["state"], "pending");
}

#[test]
fn change_json_rejects_task_audit_changes_from_another_task() {
    let error = ChangeJson::stateless()
        .normalize_remote_task_audit_payload(
            &model(&parse(
                r#"{
                    "task_id": "RCT-1029",
                    "changes": [{
                        "task_id": "RCT-OTHER",
                        "change_id": "RCT-OTHER/C-01"
                    }]
                }"#,
            )),
            "RCT-1029",
        )
        .expect_err("mismatched Task audit Change must fail closed");

    assert!(error.contains("not expected task `RCT-1029`"));
}

#[test]
fn change_json_rejects_composite_ids_from_an_unrelated_task() {
    let error = ChangeJson::stateless()
        .normalize_remote_change_payload(
            &model(&parse(
                r#"{"task_id": "RCT-OTHER", "change_id": "RCT-OTHER/C-01"}"#,
            )),
            Some("RCT-1029"),
        )
        .expect_err("unrelated task must fail closed");

    assert!(error.contains("not expected task `RCT-1029`"));
}

#[test]
fn change_json_keeps_same_short_id_isolated_by_task_context() {
    let json = ChangeJson::stateless();
    let first = plain(
        &json
            .normalize_remote_change_payload(
                &model(&parse(r#"{"task_id": "RCT-1", "change_id": "RCT-1/C-01"}"#)),
                Some("RCT-1"),
            )
            .expect("first task change"),
    );
    let second = plain(
        &json
            .normalize_remote_change_payload(
                &model(&parse(r#"{"task_id": "RCT-2", "change_id": "RCT-2/C-01"}"#)),
                Some("RCT-2"),
            )
            .expect("second task change"),
    );

    assert_eq!(first["change_id"], "C-01");
    assert_eq!(second["change_id"], "C-01");
    assert_eq!(first["change_ref"], "RCT-1/C-01");
    assert_eq!(second["change_ref"], "RCT-2/C-01");
    assert_ne!(first["task_id"], second["task_id"]);
    assert_eq!(
        json.rolling_server_change_id(Some("RCT-1"), "C-01")
            .expect("first task wire id"),
        "RCT-1/C-01"
    );
    assert_eq!(
        json.rolling_server_change_id(Some("RCT-2"), "C-01")
            .expect("second task wire id"),
        "RCT-2/C-01"
    );
}

#[test]
fn canonical_change_ids_trim_and_reduce_task_references() {
    let json = ChangeJson::stateless();
    assert_eq!(json.canonical_change_id("  RCT-9/C-12 ").unwrap(), "C-12");
    assert_eq!(json.canonical_change_id("RCC-1").unwrap(), "RCC-1");
    assert_eq!(json.canonical_change_id("a/b/C-x").unwrap(), "a/b/C-x");
    assert_eq!(json.canonical_change_id("a/C-").unwrap(), "a/C-");
    assert_eq!(
        json.canonical_change_id("   ").unwrap_err(),
        "change_id must not be empty."
    );
    assert_eq!(json.rolling_server_change_id(None, "RCC-7").unwrap(), "RCC-7");
}

#[test]
fn change_payload_errors_name_the_disagreement() {
    let json = ChangeJson::stateless();
    let error = json
        .normalize_remote_change_payload(&model(&parse(r#"{"task_id": "T"}"#)), None)
        .unwrap_err();
    assert_eq!(error, "Remote Change payload is missing change_id.");
    let error = json
        .normalize_remote_change_payload(&model(&parse(r#"{"change_id": "C-3"}"#)), None)
        .unwrap_err();
    assert_eq!(
        error,
        "Remote Change `C-3` is missing task_id required to derive change_ref."
    );
    let error = json
        .normalize_remote_change_payload(
            &model(&parse(r#"{"change_id": "T-1/C-3", "change_ref": "T-2/C-3"}"#)),
            Some("T-1"),
        )
        .unwrap_err();
    assert_eq!(
        error,
        "Remote Change change_ref `T-2/C-3` does not match derived `T-1/C-3`."
    );
    let error = json
        .normalize_remote_change_payload(&model(&parse(r#"{"change_id": "T-9/C-3"}"#)), Some("T-1"))
        .unwrap_err();
    assert_eq!(
        error,
        "Remote Change id `T-9/C-3` belongs to task `T-9`, not `T-1`."
    );
    let error = json
        .normalize_remote_change_payload(&model(&parse("[1]")), None)
        .unwrap_err();
    assert_eq!(error, "`remote Change payload` must be an object.");
    let kept = plain(
        &json
            .normalize_remote_change_payload(&model(&parse(r#"{"change_id": "RCC-5"}"#)), None)
            .unwrap(),
    );
    assert_eq!(kept["change_ref"], "RCC-5");
}

#[test]
fn linked_change_lookup_checks_rows_and_counts() {
    let json = ChangeJson::stateless();
    let payload = plain(&json.build_linked_change_lookup_payload(None).unwrap());
    assert_eq!(payload["linked_change_count"], 0);
    assert_eq!(payload["change_links_by_task"], parse("[]"));
    let error = json
        .normalize_linked_change_lookup_payload(&model(&parse(
            r#"{"change_links_by_task": [], "linked_change_count": -1}"#,
        )))
        .unwrap_err();
    assert_eq!(error, "`linked_change_count` must be non-negative.");
    let error = json
        .normalize_linked_change_lookup_payload(&model(&parse(
            r#"{"change_links_by_task": [{"task_id": "  "}]}"#,
        )))
        .unwrap_err();
    assert_eq!(error, "`task_id` must be non-empty.");
    let error = json
        .normalize_linked_change_lookup_payload(&model(&parse(
            r#"{"change_links_by_task": [{"task_id": "T", "changes": [1]}]}"#,
        )))
        .unwrap_err();
    assert_eq!(error, "`changes` must be an object.");
    let error = json
        .normalize_linked_change_lookup_payload(&model(&parse(r#"{"change_links_by_task": 3}"#)))
        .unwrap_err();
    assert_eq!(error, "`change_links_by_task` must be an array when provided.");
    let given = plain(
        &json
            .normalize_linked_change_lookup_payload(&model(&parse(
                r#"{"change_links_by_task": null, "linked_change_count": 7}"#,
            )))
            .unwrap(),
    );
    assert_eq!(given["linked_change_count"], 7);
}

#[test]
fn change_json_builds_create_change_body_with_present_optional_fields() {
    let json = ChangeJson::stateless();
    let body = json
        .build_create_change_body(
            "RCT-1",
            "Implement wrapper",
            "main",
            Some("RCC-1"),
            Some("SNP-1"),
            Some("feature/base"),
        )
        .expect("create change body");
    assert_eq!(
        plain(&body),
        parse(
            r#"{
                "task_id": "RCT-1",
                "title": "Implement wrapper",
                "base_line": "main",
                "change_id": "RCC-1",
                "fork_snapshot_id": "SNP-1",
                "forked_from_line": "feature/base"
            }"#
        )
    );
    let trimmed = json
        .build_create_change_body(" RCT-2 ", "t", "main", Some("  "), None, Some(" x "))
        .unwrap();
    assert_eq!(
        plain(&trimmed),
        parse(r#"{"task_id": "RCT-2", "title": "t", "base_line": "main", "forked_from_line": "x"}"#)
    );
}

#[test]
fn change_json_refuses_blank_required_request_fields() {
    let json = ChangeJson::stateless();
    assert_eq!(
        json.build_create_change_body("RCT-1", "   ", "main", None, None, None)
            .unwrap_err(),
        "Plan HTTP title must not be empty."
    );
    assert_eq!(
        json.build_close_change_body("").unwrap_err(),
        "Plan HTTP status must not be empty."
    );
    assert_eq!(
        plain(&json.build_close_change_body("archived").unwrap()),
        parse(r#"{"status": "archived"}"#)
    );
}

#[test]
fn change_json_recovers_land_submission_from_change_state() {
    let json = ChangeJson::stateless();

    let change = model(&parse(
        r#"{
            "change_id": "RCC-1",
            "landing_summary": {
                "status": "succeeded",
                "submission_id": "LAND-1",
                "result": {"landed_snapshot_id": "SNP-2"}
            }
        }"#,
    ));
    let recovered = plain(
        &json
            .recover_land_submission_from_change_state(&change, "RCC-FALLBACK")
            .expect("recovered land submission"),
    );

    assert_eq!(recovered["status"], "succeeded");
    assert_eq!(recovered["submission_id"], "LAND-1");
    assert_eq!(recovered["result"]["landed_snapshot_id"], "SNP-2");
    assert_eq!(recovered["response_recovery"]["action"], "submit_land");
    assert_eq!(recovered["response_recovery"]["change_id"], "RCC-1");
}

#[test]
fn land_recovery_uses_the_fallback_id_and_needs_a_landing_summary() {
    let json = ChangeJson::stateless();
    let without_id = model(&parse(r#"{"landing_summary": {"status": "queued"}}"#));
    let recovered = plain(
        &json
            .recover_land_submission_from_change_state(&without_id, "RCC-FALLBACK")
            .unwrap(),
    );
    assert_eq!(recovered["status"], "queued");
    assert_eq!(recovered["response_recovery"]["change_id"], "RCC-FALLBACK");

    for state in [r#"{"change_id": "RCC-1"}"#, r#"{"landing_summary": "done"}"#, "[]"] {
        let change = model(&parse(state));
        assert!(json
            .recover_land_submission_from_change_state(&change, "RCC-FALLBACK")
            .is_none());
    }
}
