use ait_core::config_runtime::{
    build_plan_runtime_selection_facts_json, build_plan_runtime_selection_facts_with_config_provider,
    normalize_plan_runtime_compatibility_payload_json,
    normalize_plan_runtime_compatibility_with_config_provider,
    normalize_plan_runtime_doctor_payload_json, normalize_plan_runtime_doctor_with_config_provider,
    normalize_plan_runtime_readiness_payload_json,
    normalize_plan_runtime_readiness_with_config_provider,
    normalize_plan_runtime_selection_facts_payload_json,
    normalize_plan_runtime_selection_facts_with_config_provider,
    normalize_plan_runtime_selection_request_payload_json,
    normalize_plan_runtime_selection_request_with_config_provider,
    resolve_runtime_backend_selection, ConfigProvider, RuntimeConfigFoundation, RuntimeConfigJson,
};
use ait_core::json::{JsonField, JsonNumber, JsonValue};
use serde_json::Value;

fn parse(text: &str) -> Value {
    serde_json::from_str(text).unwrap()
}

fn model(value: &Value) -> JsonValue {
    match value {
        Value::Null => JsonValue::Null,
        Value::Bool(b) => JsonValue::Bool(*b),
        Value::Number(n) => match n.as_i64() {
            Some(i) => JsonValue::Number(JsonNumber::Int(i)),
            None => JsonValue::Number(JsonNumber::Other(n.to_string())),
        },
        Value::String(s) => JsonValue::String(s.clone()),
        Value::Array(items) => JsonValue::Array(items.iter().map(model).collect()),
        Value::Object(map) => JsonValue::Object(
            map.iter()
                .map(|(key, value)| JsonField {
                    key: key.clone(),
                    value: model(value),
                })
                .collect(),
        ),
    }
}

fn plain(value: &JsonValue) -> Value {
    match value {
        JsonValue::Null => Value::Null,
        JsonValue::Bool(b) => Value::Bool(*b),
        JsonValue::Number(JsonNumber::Int(i)) => Value::from(*i),
        JsonValue::Number(JsonNumber::Other(text)) => serde_json::from_str(text).unwrap(),
        JsonValue::String(s) => Value::String(s.clone()),
        JsonValue::Array(items) => Value::Array(items.iter().map(plain).collect()),
        JsonValue::Object(fields) => Value::Object(
            fields
                .iter()
                .map(|field| (field.key.clone(), plain(&field.value)))
                .collect(),
        ),
    }
}

fn plain_result(value: Result<JsonValue, String>) -> Result<Value, String> {
    value.map(|v| plain(&v))
}

fn assert_config_provider<T: ConfigProvider>() {}

struct SubstituteConfigProvider;

impl SubstituteConfigProvider {
    fn payload(operation: &str, payload: &JsonValue) -> JsonValue {
        let mut object = serde_json::Map::new();
        object.insert("provider".to_string(), Value::String("substitute".to_string()));
        object.insert("operation".to_string(), Value::String(operation.to_string()));
        object.insert(
            "payload_json".to_string(),
            Value::String(plain(payload).to_string()),
        );
        model(&Value::Object(object))
    }
}

impl ConfigProvider for SubstituteConfigProvider {
    fn normalize_runtime_selection_request_payload_json(
        &self,
        payload: &JsonValue,
    ) -> Result<JsonValue, String> {
        Ok(Self::payload(
            "normalize_runtime_selection_request_payload_json",
            payload,
        ))
    }

    fn build_runtime_selection_facts_json(&self, payload: &JsonValue) -> Result<JsonValue, String> {
        Ok(Self::payload("build_runtime_selection_facts_json", payload))
    }

    fn normalize_runtime_selection_facts_payload_json(
        &self,
        payload: &JsonValue,
    ) -> Result<JsonValue, String> {
        Ok(Self::payload(
            "normalize_runtime_selection_facts_payload_json",
            payload,
        ))
    }

    fn normalize_runtime_compatibility_payload_json(
        &self,
        payload: &JsonValue,
    ) -> Result<JsonValue, String> {
        Ok(Self::payload(
            "normalize_runtime_compatibility_payload_json",
            payload,
        ))
    }

    fn normalize_runtime_readiness_payload_json(
        &self,
        payload: &JsonValue,
    ) -> Result<JsonValue, String> {
        Ok(Self::payload(
            "normalize_runtime_readiness_payload_json",
            payload,
        ))
    }

    fn normalize_runtime_doctor_payload_json(
        &self,
        payload: &JsonValue,
    ) -> Result<JsonValue, String> {
        Ok(Self::payload("normalize_runtime_doctor_payload_json", payload))
    }
}

#[test]
fn plan_runtime_config_foundation_implements_config_provider() {
    assert_config_provider::<RuntimeConfigFoundation>();
}

#[test]
fn config_runtime_bound_helpers_accept_substitute_provider() {
    let provider = SubstituteConfigProvider;
    let request = parse(r#"{ "sample": true }"#).to_string();
    let payload = model(&parse(&request));

    let cases = [
        (
            "normalize_runtime_selection_request_payload_json",
            normalize_plan_runtime_selection_request_with_config_provider(&provider, &payload)
                .expect("selection request"),
        ),
        (
            "build_runtime_selection_facts_json",
            build_plan_runtime_selection_facts_with_config_provider(&provider, &payload)
                .expect("selection facts"),
        ),
        (
            "normalize_runtime_selection_facts_payload_json",
            normalize_plan_runtime_selection_facts_with_config_provider(&provider, &payload)
                .expect("selection facts normalize"),
        ),
        (
            "normalize_runtime_compatibility_payload_json",
            normalize_plan_runtime_compatibility_with_config_provider(&provider, &payload)
                .expect("compatibility"),
        ),
        (
            "normalize_runtime_readiness_payload_json",
            normalize_plan_runtime_readiness_with_config_provider(&provider, &payload)
                .expect("readiness"),
        ),
        (
            "normalize_runtime_doctor_payload_json",
            normalize_plan_runtime_doctor_with_config_provider(&provider, &payload)
                .expect("doctor"),
        ),
    ];

    for (operation, payload) in cases {
        let payload = plain(&payload);
        assert_eq!(payload["provider"], Value::String("substitute".to_string()));
        assert_eq!(payload["operation"], Value::String(operation.to_string()));
        assert_eq!(payload["payload_json"], Value::String(request.clone()));
    }
}

#[test]
fn plan_runtime_config_foundation_delegates_core_normalizer() {
    let foundation = RuntimeConfigFoundation;
    let request = model(&parse(r#"{"overrides":{}}"#));
    assert_eq!(
        plain_result(foundation.normalize_runtime_selection_request_payload_json(&request)).unwrap(),
        plain_result(normalize_plan_runtime_selection_request_payload_json(&request)).unwrap()
    );
    assert_eq!(
        plain_result(foundation.build_runtime_selection_facts_json(&request)).unwrap(),
        plain_result(build_plan_runtime_selection_facts_json(&request)).unwrap()
    );
}

#[test]
fn selection_facts_use_typed_overrides_or_the_fixed_rust_default() {
    let request = model(&parse(
        r#"{
            "overrides": {
                "plan_http_backend": "rust"
            }
        }"#,
    ));

    let facts = plain(&build_plan_runtime_selection_facts_json(&request).expect("selection facts"));

    assert_eq!(facts["plan_core_backend"]["value"], "rust");
    assert_eq!(facts["plan_core_backend"]["source"], "default");
    assert_eq!(facts["plan_http_backend"]["value"], "rust");
    assert_eq!(facts["plan_http_backend"]["source"], "explicit");
    assert_eq!(facts["plan_filesystem_backend"]["value"], "rust");
    assert_eq!(facts["plan_filesystem_backend"]["source"], "default");
}

#[test]
fn backend_gate_is_fixed_to_rust_without_process_environment() {
    assert_eq!(
        resolve_runtime_backend_selection("rust", "plan core backend activation")
            .expect("Rust authority"),
        "rust"
    );
    assert!(resolve_runtime_backend_selection("python", "plan core backend activation").is_err());
    assert!(resolve_runtime_backend_selection("other", "plan core backend activation").is_err());
}

#[test]
fn backend_names_are_trimmed_lower_cased_and_python_is_refused() {
    assert_eq!(
        resolve_runtime_backend_selection("  RUST ", "x").unwrap(),
        "rust"
    );
    assert_eq!(
        resolve_runtime_backend_selection("", "plan core backend activation").unwrap_err(),
        "Backend `python` is no longer allowed for production runtime selection of plan core backend activation; remove Python backend overrides and rerun."
    );
    assert_eq!(
        resolve_runtime_backend_selection("Go", "x").unwrap_err(),
        "Unsupported core backend: Go"
    );
}

#[test]
fn selection_requests_keep_known_text_overrides_and_refuse_others() {
    let normalized = plain(
        &normalize_plan_runtime_selection_request_payload_json(&model(&parse(
            r#"{"overrides": {"plan_core_backend": " rust ", "plan_http_backend": null}}"#,
        )))
        .unwrap(),
    );
    assert_eq!(normalized, parse(r#"{"overrides": {"plan_core_backend": "rust"}}"#));
    assert_eq!(
        normalize_plan_runtime_selection_request_payload_json(&model(&parse(
            r#"{"overrides": {"unknown_backend": "rust"}}"#,
        )))
        .unwrap_err(),
        "Unsupported plan config/runtime selector override `unknown_backend`."
    );
    assert_eq!(
        normalize_plan_runtime_selection_request_payload_json(&model(&parse(
            r#"{"overrides": {"plan_core_backend": 3}}"#,
        )))
        .unwrap_err(),
        "Plan config/runtime payload field `override `plan_core_backend`` must be a string."
    );
    assert_eq!(
        normalize_plan_runtime_selection_request_payload_json(&model(&parse("[]"))).unwrap_err(),
        "plan config/runtime selection request must be an object."
    );
    assert_eq!(
        plain(&normalize_plan_runtime_selection_request_payload_json(&model(&parse("{}"))).unwrap()),
        parse(r#"{"overrides": {}}"#)
    );
    let error = build_plan_runtime_selection_facts_json(&model(&parse(
        r#"{"overrides": {"plan_blob_diff_backend": "python"}}"#,
    )))
    .unwrap_err();
    assert!(error.contains("plan blob diff foundation backend"));
}

fn facts_json(source: &str) -> String {
    let keys = [
        "plan_core_backend",
        "plan_http_backend",
        "plan_filesystem_backend",
        "plan_blob_diff_backend",
        "plan_pack_substrate_backend",
        "workflow_primitives_backend",
        "plan_ports_protocols_backend",
        "plan_config_runtime_backend",
    ];
    let entries: Vec<String> = keys
        .iter()
        .map(|key| format!(r#""{key}": {{"value": " Rust ", "source": "{source}"}}"#))
        .collect();
    format!("{{{}}}", entries.join(", "))
}

#[test]
fn selection_facts_payloads_are_checked_per_selector() {
    let normalized = plain(
        &normalize_plan_runtime_selection_facts_payload_json(&model(&parse(&facts_json("env"))))
            .unwrap(),
    );
    assert_eq!(normalized["workflow_primitives_backend"]["value"], "rust");
    assert_eq!(normalized["workflow_primitives_backend"]["source"], "env");
    assert_eq!(
        normalize_plan_runtime_selection_facts_payload_json(&model(&parse(&facts_json("guess"))))
            .unwrap_err(),
        "Unsupported backend selection source `guess` for `plan_core_backend`."
    );
    assert_eq!(
        normalize_plan_runtime_selection_facts_payload_json(&model(&parse("{}"))).unwrap_err(),
        "plan config/runtime selection facts entry `plan_core_backend` must be an object."
    );
}

fn compatibility_json() -> String {
    format!(
        r#"{{
            "selectors": {},
            "plan_authority": {{
                "selected_backend": "rust",
                "selected_backend_ready": true,
                "rust_authority_ready": true,
                "compatibility": " full ",
                "issues": [" none "],
                "extra": 1
            }},
            "compatible": true,
            "issues": [],
            "surface_commands": [" ait status "]
        }}"#,
        facts_json("default")
    )
}

#[test]
fn compatibility_readiness_and_doctor_reports_are_normalized() {
    let compatibility = plain(
        &normalize_plan_runtime_compatibility_payload_json(&model(&parse(&compatibility_json())))
            .unwrap(),
    );
    assert_eq!(compatibility["plan_authority"]["compatibility"], "full");
    assert_eq!(compatibility["plan_authority"]["issues"][0], "none");
    assert_eq!(compatibility["plan_authority"]["extra"], 1);
    assert_eq!(compatibility["surface_commands"][0], "ait status");
    assert_eq!(compatibility["compatible"], true);

    let mut readiness = parse(&compatibility_json());
    readiness["ready"] = Value::Bool(false);
    let normalized = plain(&normalize_plan_runtime_readiness_payload_json(&model(&readiness)).unwrap());
    assert_eq!(normalized["storage_readiness"], Value::Null);
    assert_eq!(normalized["ready"], false);
    readiness["storage_readiness"] = Value::Bool(true);
    assert_eq!(
        normalize_plan_runtime_readiness_payload_json(&model(&readiness)).unwrap_err(),
        "Plan config/runtime storage readiness must be null in this runtime."
    );
    readiness["storage_readiness"] = Value::Null;

    let mut doctor = serde_json::Map::new();
    doctor.insert("selectors".to_string(), parse(&facts_json("explicit")));
    doctor.insert("compatibility".to_string(), parse(&compatibility_json()));
    doctor.insert("readiness".to_string(), readiness);
    doctor.insert("env".to_string(), parse(r#"{"AIT_HOME": " /tmp ", "AIT_X": null}"#));
    doctor.insert("surface_commands".to_string(), parse(r#"["ait doctor"]"#));
    let normalized =
        plain(&normalize_plan_runtime_doctor_payload_json(&model(&Value::Object(doctor.clone()))).unwrap());
    assert_eq!(normalized["env"]["AIT_HOME"], "/tmp");
    assert_eq!(normalized["env"]["AIT_X"], Value::Null);
    assert_eq!(normalized["readiness"]["ready"], false);

    doctor.insert("surface_commands".to_string(), parse(r#"["  "]"#));
    assert_eq!(
        normalize_plan_runtime_doctor_payload_json(&model(&Value::Object(doctor.clone()))).unwrap_err(),
        "Plan config/runtime payload field `surface_commands entry` must be non-empty."
    );
    doctor.insert("env".to_string(), parse(r#"{"AIT_HOME": 1}"#));
    assert_eq!(
        normalize_plan_runtime_doctor_payload_json(&model(&Value::Object(doctor))).unwrap_err(),
        "Plan config/runtime payload field `env `AIT_HOME`` must be a string."
    );

    let mut missing = parse(&compatibility_json());
    missing["compatible"] = Value::from(1);
    assert_eq!(
        normalize_plan_runtime_compatibility_payload_json(&model(&missing)).unwrap_err(),
        "Plan config/runtime payload field `compatible` must be a boolean."
    );
    let json = RuntimeConfigJson::stateless();
    assert!(json
        .normalize_runtime_compatibility_payload_json(&model(&parse(&compatibility_json())))
        .is_ok());
}
