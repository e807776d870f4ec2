//! Runtime configuration payloads: backend selection requests and facts,
//! compatibility, readiness and doctor reports. Every backend selector is
//! fixed to the Rust implementation.

use vstd::prelude::*;

use crate::json::{
    array_of, copy_fields, field_get, field_set, fields_view, get_field, items_view, lemma_fold_error_extends,
    lemma_fold_step, lemma_fold_whole, object_of, set_field, spec_fold, JsonField, JsonValue, JsonView,
};
use crate::text::{
    ascii_lower_seq, cat2, cat3, cat5, chars_eq_str, chars_of, owned, push_str, spec_trim, str_eq,
    string_from_chars, to_ascii_lowercase, trim_str,
};

verus! {

// ----- selectors ------------------------------------------------------------

/// The backend selectors, in their fixed order.
pub open spec fn selection_keys() -> Seq<Seq<char>> {
    seq![
        "plan_core_backend"@,
        "plan_http_backend"@,
        "plan_filesystem_backend"@,
        "plan_blob_diff_backend"@,
        "plan_pack_substrate_backend"@,
        "workflow_primitives_backend"@,
        "plan_ports_protocols_backend"@,
        "plan_config_runtime_backend"@,
    ]
}

fn selection_key_list() -> (keys: Vec<&'static str>)
    ensures
        keys@.len() == selection_keys().len(),
        forall|i: int| 0 <= i < keys@.len() ==> (#[trigger] keys@[i])@ == selection_keys()[i],
{
    let keys = vec![
        "plan_core_backend",
        "plan_http_backend",
        "plan_filesystem_backend",
        "plan_blob_diff_backend",
        "plan_pack_substrate_backend",
        "workflow_primitives_backend",
        "plan_ports_protocols_backend",
        "plan_config_runtime_backend",
    ];
    assert forall|i: int| 0 <= i < keys@.len() implies (#[trigger] keys@[i])@ == selection_keys()[i] by {
        assert(selection_keys()[i] == selection_keys()[i]);
    }
    keys
}

fn is_selection_key(key: &str) -> (r: bool)
    ensures
        r == selection_keys().contains(key@),
{
    let keys = selection_key_list();
    let mut i: usize = 0;
    while i < keys.len()
        invariant
            keys@.len() == selection_keys().len(),
            forall|j: int| 0 <= j < keys@.len() ==> (#[trigger] keys@[j])@ == selection_keys()[j],
            i <= keys@.len(),
            forall|j: int| 0 <= j < i ==> selection_keys()[j] != key@,
        decreases keys@.len() - i,
    {
        if str_eq(keys[i], key) {
            assert(selection_keys()[i as int] == key@);
            return true;
        }
        i = i + 1;
    }
    false
}

/// What each selector chooses the backend of.
pub open spec fn spec_selector_capability(key: Seq<char>) -> Seq<char> {
    if key == "plan_core_backend"@ {
        "plan core backend activation"@
    } else if key == "plan_http_backend"@ {
        "plan HTTP client foundation backend"@
    } else if key == "plan_filesystem_backend"@ {
        "plan filesystem foundation backend"@
    } else if key == "plan_blob_diff_backend"@ {
        "plan blob diff foundation backend"@
    } else if key == "plan_pack_substrate_backend"@ {
        "plan pack substrate backend"@
    } else if key == "workflow_primitives_backend"@ {
        "workflow primitives backend activation"@
    } else if key == "plan_ports_protocols_backend"@ {
        "plan ports/protocols foundation backend"@
    } else {
        "plan config/runtime selection foundation backend"@
    }
}

/// The capability of a selector; `key` must be one of the selectors.
pub fn selector_capability(key: &str) -> (r: &'static str)
    requires
        selection_keys().contains(key@),
    ensures
        r@ == spec_selector_capability(key@),
{
    if str_eq(key, "plan_core_backend") {
        "plan core backend activation"
    } else if str_eq(key, "plan_http_backend") {
        "plan HTTP client foundation backend"
    } else if str_eq(key, "plan_filesystem_backend") {
        "plan filesystem foundation backend"
    } else if str_eq(key, "plan_blob_diff_backend") {
        "plan blob diff foundation backend"
    } else if str_eq(key, "plan_pack_substrate_backend") {
        "plan pack substrate backend"
    } else if str_eq(key, "workflow_primitives_backend") {
        "workflow primitives backend activation"
    } else if str_eq(key, "plan_ports_protocols_backend") {
        "plan ports/protocols foundation backend"
    } else {
        "plan config/runtime selection foundation backend"
    }
}

/// A backend name: trimmed and lower-cased, blank meaning `python`; only
/// `python` and `rust` are names. Only ASCII letters lower-case to the
/// letters of these two names, so ASCII lower-casing decides exactly as
/// full Unicode lower-casing would.
pub open spec fn spec_backend_name(value: Option<Seq<char>>) -> Result<Seq<char>, Seq<char>> {
    let raw = match value {
        Some(v) => v,
        None => "python"@,
    };
    let lowered = ascii_lower_seq(spec_trim(raw));
    let name = if lowered.len() == 0 {
        "python"@
    } else {
        lowered
    };
    if name == "python"@ || name == "rust"@ {
        Ok(name)
    } else {
        Err("Unsupported core backend: "@ + raw)
    }
}

fn normalize_backend_name(value: Option<&str>) -> (r: Result<String, String>)
    ensures
        match r {
            Ok(s) => spec_backend_name(opt_text(value)) == Ok::<Seq<char>, Seq<char>>(s@),
            Err(e) => spec_backend_name(opt_text(value)) == Err::<Seq<char>, Seq<char>>(e@),
        },
{
    let raw: &str = match value {
        Some(v) => v,
        None => "python",
    };
    let trimmed = trim_str(raw);
    let lowered = to_ascii_lowercase(&trimmed);
    let name: Vec<char> = if lowered.len() == 0 {
        chars_of("python")
    } else {
        lowered
    };
    if chars_eq_str(&name, "python") || chars_eq_str(&name, "rust") {
        Ok(string_from_chars(&name))
    } else {
        let mut m = chars_of("Unsupported core backend: ");
        push_str(&mut m, raw);
        Err(string_from_chars(&m))
    }
}

pub open spec fn opt_text(value: Option<&str>) -> Option<Seq<char>> {
    match value {
        Some(v) => Some(v@),
        None => None,
    }
}

/// The backend a selector resolves to; the retired `python` backend is
/// refused.
pub open spec fn spec_resolve_backend(value: Seq<char>, capability: Seq<char>) -> Result<
    Seq<char>,
    Seq<char>,
> {
    match spec_backend_name(Some(value)) {
        Err(e) => Err(e),
        Ok(name) => if name == "python"@ {
            Err("Backend `python` is no longer allowed for production runtime selection of "@
                + capability + "; remove Python backend overrides and rerun."@)
        } else {
            Ok(name)
        },
    }
}

pub fn resolve_runtime_backend_selection(value: &str, capability: &str) -> (r: Result<String, String>)
    ensures
        match r {
            Ok(s) => spec_resolve_backend(value@, capability@) == Ok::<Seq<char>, Seq<char>>(s@),
            Err(e) => spec_resolve_backend(value@, capability@) == Err::<Seq<char>, Seq<char>>(e@),
        },
{
    let name = normalize_backend_name(Some(value))?;
    if str_eq(name.as_str(), "python") {
        return Err(
            cat3(
                "Backend `python` is no longer allowed for production runtime selection of ",
                capability,
                "; remove Python backend overrides and rerun.",
            ),
        );
    }
    Ok(name)
}

// ----- field rules ----------------------------------------------------------

pub open spec fn field_error(field: Seq<char>, what: Seq<char>) -> Seq<char> {
    "Plan config/runtime payload field `"@ + field + "` must be "@ + what + "."@
}

pub open spec fn label_object_error(label: Seq<char>) -> Seq<char> {
    label + " must be an object."@
}

pub open spec fn text_view(r: Result<String, String>) -> Result<Seq<char>, Seq<char>> {
    match r {
        Ok(s) => Ok(s@),
        Err(e) => Err(e@),
    }
}

pub open spec fn fields_result_view(r: Result<Vec<JsonField>, String>) -> Result<
    Seq<(Seq<char>, JsonView)>,
    Seq<char>,
> {
    match r {
        Ok(f) => Ok(fields_view(f@)),
        Err(e) => Err(e@),
    }
}

pub open spec fn json_result_view(r: Result<JsonValue, String>) -> Result<JsonView, Seq<char>> {
    match r {
        Ok(v) => Ok(v.jv()),
        Err(e) => Err(e@),
    }
}

pub open spec fn opt_view(value: Option<&JsonValue>) -> Option<JsonView> {
    match value {
        Some(v) => Some(v.jv()),
        None => None,
    }
}

fn require_object_labeled<'a>(value: Option<&'a JsonValue>, label: &str) -> (r: Result<
    &'a Vec<JsonField>,
    String,
>)
    ensures
        r matches Ok(f) ==> opt_view(value) == Some(JsonView::Object(fields_view(f@))),
        r matches Err(e) ==> e@ == label_object_error(label@) && !(opt_view(value) matches Some(
            JsonView::Object(_),
        )),
{
    match value {
        Some(JsonValue::Object(fields)) => {
            proof {
                crate::json::lemma_object_view(*fields);
            }
            Ok(fields)
        },
        _ => Err(cat2(label, " must be an object.")),
    }
}

pub open spec fn spec_require_string(value: JsonView, field: Seq<char>) -> Result<Seq<char>, Seq<char>> {
    match value {
        JsonView::Str(t) => Ok(t),
        _ => Err(field_error(field, "a string"@)),
    }
}

fn require_string(value: &JsonValue, field: &str) -> (r: Result<String, String>)
    ensures
        text_view(r) == spec_require_string(value.jv(), field@),
{
    match value {
        JsonValue::String(text) => Ok(text.clone()),
        _ => Err(cat5("Plan config/runtime payload field `", field, "` must be ", "a string", ".")),
    }
}

pub open spec fn spec_require_nonempty(value: Option<JsonView>, field: Seq<char>) -> Result<
    Seq<char>,
    Seq<char>,
> {
    match value {
        None => Err(field_error(field, "a string"@)),
        Some(v) => match spec_require_string(v, field) {
            Err(e) => Err(e),
            Ok(t) => if spec_trim(t).len() == 0 {
                Err(field_error(field, "non-empty"@))
            } else {
                Ok(spec_trim(t))
            },
        },
    }
}

fn require_nonempty_text(value: Option<&JsonValue>, field: &str) -> (r: Result<String, String>)
    ensures
        text_view(r) == spec_require_nonempty(opt_view(value), field@),
{
    let value = match value {
        Some(v) => v,
        None => {
            return Err(cat5("Plan config/runtime payload field `", field, "` must be ", "a string", "."));
        },
    };
    let text = require_string(value, field)?;
    let t = trim_str(text.as_str());
    if t.len() == 0 {
        return Err(cat5("Plan config/runtime payload field `", field, "` must be ", "non-empty", "."));
    }
    Ok(string_from_chars(&t))
}

pub open spec fn spec_require_bool(value: Option<JsonView>, field: Seq<char>) -> Result<bool, Seq<char>> {
    match value {
        Some(JsonView::Bool(b)) => Ok(b),
        _ => Err(field_error(field, "a boolean"@)),
    }
}

fn require_bool(value: Option<&JsonValue>, field: &str) -> (r: Result<bool, String>)
    ensures
        match r {
            Ok(b) => spec_require_bool(opt_view(value), field@) == Ok::<bool, Seq<char>>(b),
            Err(e) => spec_require_bool(opt_view(value), field@) == Err::<bool, Seq<char>>(e@),
        },
{
    match value {
        Some(JsonValue::Bool(flag)) => Ok(*flag),
        _ => Err(cat5("Plan config/runtime payload field `", field, "` must be ", "a boolean", ".")),
    }
}

/// One text-list entry: trimmed non-empty text.
pub open spec fn text_entry_step(entry_field: Seq<char>) -> spec_fn(Seq<JsonView>, JsonView) -> Result<
    Seq<JsonView>,
    Seq<char>,
> {
    |acc: Seq<JsonView>, item: JsonView|
        match spec_require_nonempty(Some(item), entry_field) {
            Err(e) => Err(e),
            Ok(t) => Ok(acc.push(JsonView::Str(t))),
        }
}

/// A list of trimmed non-empty texts.
pub open spec fn spec_text_list(value: Option<JsonView>, list_field: Seq<char>, entry_field: Seq<char>) -> Result<
    Seq<JsonView>,
    Seq<char>,
> {
    match value {
        Some(JsonView::Array(items)) => spec_fold(items, Seq::empty(), text_entry_step(entry_field)),
        _ => Err(field_error(list_field, "a list"@)),
    }
}

fn text_list(value: Option<&JsonValue>, list_field: &str, entry_field: &str) -> (r: Result<
    Vec<JsonValue>,
    String,
>)
    ensures
        match r {
            Ok(v) => spec_text_list(opt_view(value), list_field@, entry_field@) == Ok::<
                Seq<JsonView>,
                Seq<char>,
            >(items_view(v@)),
            Err(e) => spec_text_list(opt_view(value), list_field@, entry_field@) == Err::<
                Seq<JsonView>,
                Seq<char>,
            >(e@),
        },
{
    let items = match value {
        Some(JsonValue::Array(items)) => items,
        _ => {
            return Err(cat5("Plan config/runtime payload field `", list_field, "` must be ", "a list", "."));
        },
    };
    proof {
        crate::json::lemma_array_view(*items);
    }
    let ghost iv = items_view(items@);
    let ghost step = text_entry_step(entry_field@);
    let mut out: Vec<JsonValue> = Vec::new();
    let mut i: usize = 0;
    assert(items_view(out@) =~= Seq::<JsonView>::empty());
    while i < items.len()
        invariant
            iv == items_view(items@),
            opt_view(value) == Some(JsonView::Array(iv)),
            step == text_entry_step(entry_field@),
            i <= items@.len(),
            spec_fold(iv.subrange(0, i as int), Seq::<JsonView>::empty(), step) == Ok::<
                Seq<JsonView>,
                Seq<char>,
            >(items_view(out@)),
        decreases items@.len() - i,
    {
        proof {
            lemma_fold_step(iv, Seq::<JsonView>::empty(), step, i as int);
        }
        let text = match require_nonempty_text(Some(&items[i]), entry_field) {
            Ok(t) => t,
            Err(e) => {
                proof {
                    lemma_fold_error_extends(iv, Seq::<JsonView>::empty(), step, i + 1, e@);
                }
                return Err(e);
            },
        };
        let ghost before = out@;
        out.push(JsonValue::String(text));
        assert(items_view(out@) =~= items_view(before).push(out@.last().jv()));
        i = i + 1;
    }
    proof {
        lemma_fold_whole(iv, Seq::<JsonView>::empty(), step);
    }
    Ok(out)
}

// ----- selection requests and facts -------------------------------------------

/// One override: a known selector, skipped when null, else trimmed text.
pub open spec fn override_step() -> spec_fn(Seq<(Seq<char>, JsonView)>, (Seq<char>, JsonView)) -> Result<
    Seq<(Seq<char>, JsonView)>,
    Seq<char>,
> {
    |acc: Seq<(Seq<char>, JsonView)>, entry: (Seq<char>, JsonView)|
        if !selection_keys().contains(entry.0) {
            Err("Unsupported plan config/runtime selector override `"@ + entry.0 + "`."@)
        } else if entry.1 is Null {
            Ok(acc)
        } else {
            match spec_require_string(entry.1, "override `"@ + entry.0 + "`"@) {
                Err(e) => Err(e),
                Ok(t) => Ok(field_set(acc, entry.0, JsonView::Str(spec_trim(t)))),
            }
        }
}

fn selection_overrides(fields: &Vec<JsonField>) -> (r: Result<Vec<JsonField>, String>)
    ensures
        fields_result_view(r) == spec_fold(fields_view(fields@), Seq::empty(), override_step()),
{
    let ghost fv = fields_view(fields@);
    let ghost step = override_step();
    let mut out: Vec<JsonField> = Vec::new();
    assert(fields_view(out@) =~= Seq::<(Seq<char>, JsonView)>::empty());
    let mut i: usize = 0;
    while i < fields.len()
        invariant
            fv == fields_view(fields@),
            step == override_step(),
            i <= fields@.len(),
            spec_fold(fv.subrange(0, i as int), Seq::empty(), step) == Ok::<
                Seq<(Seq<char>, JsonView)>,
                Seq<char>,
            >(fields_view(out@)),
        decreases fields@.len() - i,
    {
        proof {
            lemma_fold_step(fv, Seq::empty(), step, i as int);
        }
        let key = &fields[i].key;
        let value = &fields[i].value;
        if !is_selection_key(key.as_str()) {
            proof {
                lemma_fold_error_extends(
                    fv,
                    Seq::empty(),
                    step,
                    i + 1,
                    "Unsupported plan config/runtime selector override `"@ + key@ + "`."@,
                );
            }
            return Err(cat3("Unsupported plan config/runtime selector override `", key.as_str(), "`."));
        }
        match value {
            JsonValue::Null => {},
            _ => {
                let label = cat3("override `", key.as_str(), "`");
                let text = match require_string(value, label.as_str()) {
                    Ok(t) => t,
                    Err(e) => {
                        proof {
                            lemma_fold_error_extends(fv, Seq::empty(), step, i + 1, e@);
                        }
                        return Err(e);
                    },
                };
                let t = trim_str(text.as_str());
                set_field(&mut out, key.clone(), JsonValue::String(string_from_chars(&t)));
            },
        }
        i = i + 1;
    }
    proof {
        lemma_fold_whole(fv, Seq::empty(), step);
    }
    Ok(out)
}

/// The normalized selection request: its overrides, if any, checked and
/// trimmed.
pub open spec fn spec_selection_request_map(obj: Seq<(Seq<char>, JsonView)>) -> Result<JsonView, Seq<char>> {
    let overrides = match field_get(obj, "overrides"@) {
        None => Ok(Seq::empty()),
        Some(JsonView::Object(o)) => spec_fold(o, Seq::empty(), override_step()),
        Some(_) => Err(label_object_error("plan config/runtime selection overrides"@)),
    };
    match overrides {
        Err(e) => Err(e),
        Ok(o) => Ok(JsonView::Object(seq![("overrides"@, JsonView::Object(o))])),
    }
}

fn selection_request_map(fields: &Vec<JsonField>) -> (r: Result<JsonValue, String>)
    ensures
        json_result_view(r) == spec_selection_request_map(fields_view(fields@)),
{
    let overrides: Vec<JsonField> = match get_field(fields, "overrides") {
        None => {
            let v: Vec<JsonField> = Vec::new();
            assert(fields_view(v@) =~= Seq::<(Seq<char>, JsonView)>::empty());
            v
        },
        Some(value) => {
            let o = require_object_labeled(Some(value), "plan config/runtime selection overrides")?;
            selection_overrides(o)?
        },
    };
    let ghost ov = fields_view(overrides@);
    let mut out: Vec<JsonField> = Vec::new();
    out.push(JsonField { key: owned("overrides"), value: object_of(overrides) });
    assert(fields_view(out@) =~= seq![("overrides"@, JsonView::Object(ov))]);
    Ok(object_of(out))
}

/// The fact of one selector: its override (text, or empty text for any
/// other value) as the explicit choice, else `rust` by default, resolved.
pub open spec fn spec_selector_fact(key: Seq<char>, overrides: Seq<(Seq<char>, JsonView)>) -> Result<
    JsonView,
    Seq<char>,
> {
    let (value, source) = match field_get(overrides, key) {
        Some(JsonView::Str(t)) => (t, "explicit"@),
        Some(_) => (""@, "explicit"@),
        None => ("rust"@, "default"@),
    };
    match spec_resolve_backend(value, spec_selector_capability(key)) {
        Err(e) => Err(e),
        Ok(name) => Ok(
            JsonView::Object(
                seq![("value"@, JsonView::Str(name)), ("source"@, JsonView::Str(source))],
            ),
        ),
    }
}

pub open spec fn fact_step(overrides: Seq<(Seq<char>, JsonView)>) -> spec_fn(
    Seq<(Seq<char>, JsonView)>,
    Seq<char>,
) -> Result<Seq<(Seq<char>, JsonView)>, Seq<char>> {
    |acc: Seq<(Seq<char>, JsonView)>, key: Seq<char>|
        match spec_selector_fact(key, overrides) {
            Err(e) => Err(e),
            Ok(f) => Ok(field_set(acc, key, f)),
        }
}

/// The facts of every selector, in selector order.
pub open spec fn spec_selection_facts_map(obj: Seq<(Seq<char>, JsonView)>) -> Result<JsonView, Seq<char>> {
    match spec_selection_request_map(obj) {
        Err(e) => Err(e),
        Ok(request) => match field_get(request->Object_0, "overrides"@) {
            Some(JsonView::Object(overrides)) => match spec_fold(
                selection_keys(),
                Seq::empty(),
                fact_step(overrides),
            ) {
                Err(e) => Err(e),
                Ok(facts) => Ok(JsonView::Object(facts)),
            },
            _ => Err(label_object_error("plan config/runtime selection request overrides"@)),
        },
    }
}

fn selector_fact(key: &str, overrides: &Vec<JsonField>) -> (r: Result<JsonValue, String>)
    requires
        selection_keys().contains(key@),
    ensures
        json_result_view(r) == spec_selector_fact(key@, fields_view(overrides@)),
{
    let (value, source): (String, &str) = match get_field(overrides, key) {
        Some(JsonValue::String(text)) => (text.clone(), "explicit"),
        Some(_) => (owned(""), "explicit"),
        None => (owned("rust"), "default"),
    };
    let name = resolve_runtime_backend_selection(value.as_str(), selector_capability(key))?;
    let ghost nv = name@;
    let mut out: Vec<JsonField> = Vec::new();
    out.push(JsonField { key: owned("value"), value: JsonValue::String(name) });
    out.push(JsonField { key: owned("source"), value: JsonValue::String(owned(source)) });
    assert(fields_view(out@) =~= seq![("value"@, JsonView::Str(nv)), ("source"@, JsonView::Str(source@))]);
    Ok(object_of(out))
}

fn selection_facts_map(fields: &Vec<JsonField>) -> (r: Result<JsonValue, String>)
    ensures
        json_result_view(r) == spec_selection_facts_map(fields_view(fields@)),
{
    let request = selection_request_map(fields)?;
    let request_fields = require_object_labeled(Some(&request), "plan config/runtime selection request")?;
    let overrides = require_object_labeled(
        get_field(request_fields, "overrides"),
        "plan config/runtime selection request overrides",
    )?;
    let keys = selection_key_list();
    let ghost ks = selection_keys();
    let ghost step = fact_step(fields_view(overrides@));
    let mut out: Vec<JsonField> = Vec::new();
    assert(fields_view(out@) =~= Seq::<(Seq<char>, JsonView)>::empty());
    let mut i: usize = 0;
    while i < keys.len()
        invariant
            keys@.len() == ks.len(),
            ks == selection_keys(),
            forall|j: int| 0 <= j < keys@.len() ==> (#[trigger] keys@[j])@ == ks[j],
            step == fact_step(fields_view(overrides@)),
            spec_selection_request_map(fields_view(fields@)) == Ok::<JsonView, Seq<char>>(
                request.jv(),
            ),
            request.jv() == JsonView::Object(fields_view(request_fields@)),
            field_get(fields_view(request_fields@), "overrides"@) == Some(
                JsonView::Object(fields_view(overrides@)),
            ),
            i <= keys@.len(),
            spec_fold(ks.subrange(0, i as int), Seq::empty(), step) == Ok::<
                Seq<(Seq<char>, JsonView)>,
                Seq<char>,
            >(fields_view(out@)),
        decreases keys@.len() - i,
    {
        proof {
            lemma_fold_step(ks, Seq::empty(), step, i as int);
            assert(ks.contains(keys@[i as int]@));
        }
        let key = keys[i];
        let fact = match selector_fact(key, overrides) {
            Ok(f) => f,
            Err(e) => {
                proof {
                    lemma_fold_error_extends(ks, Seq::empty(), step, i + 1, e@);
                }
                return Err(e);
            },
        };
        set_field(&mut out, owned(key), fact);
        i = i + 1;
    }
    proof {
        lemma_fold_whole(ks, Seq::empty(), step);
    }
    Ok(object_of(out))
}

/// One checked selection fact: a backend name and a known source.
pub open spec fn facts_entry_step(obj: Seq<(Seq<char>, JsonView)>) -> spec_fn(
    Seq<(Seq<char>, JsonView)>,
    Seq<char>,
) -> Result<Seq<(Seq<char>, JsonView)>, Seq<char>> {
    |acc: Seq<(Seq<char>, JsonView)>, key: Seq<char>|
        match field_get(obj, key) {
            Some(JsonView::Object(entry)) => match field_get(entry, "value"@) {
                None => Err("Plan config/runtime selection facts entry `"@ + key
                    + "` is missing value."@),
                Some(v) => match spec_require_string(v, key + ".value"@) {
                    Err(e) => Err(e),
                    Ok(vt) => match spec_backend_name(Some(vt)) {
                        Err(e) => Err(e),
                        Ok(name) => match field_get(entry, "source"@) {
                            None => Err("Plan config/runtime selection facts entry `"@ + key
                                + "` is missing source."@),
                            Some(sv) => match spec_require_string(sv, key + ".source"@) {
                                Err(e) => Err(e),
                                Ok(source) => if source != "default"@ && source != "env"@ && source
                                    != "explicit"@ {
                                    Err("Unsupported backend selection source `"@ + source
                                        + "` for `"@ + key + "`."@)
                                } else {
                                    Ok(
                                        field_set(
                                            acc,
                                            key,
                                            JsonView::Object(
                                                seq![
                                                    ("value"@, JsonView::Str(name)),
                                                    ("source"@, JsonView::Str(source)),
                                                ],
                                            ),
                                        ),
                                    )
                                },
                            },
                        },
                    },
                },
            },
            _ => Err(label_object_error("plan config/runtime selection facts entry `"@ + key + "`"@)),
        }
}

pub open spec fn spec_facts_map(obj: Seq<(Seq<char>, JsonView)>) -> Result<
    Seq<(Seq<char>, JsonView)>,
    Seq<char>,
> {
    spec_fold(selection_keys(), Seq::empty(), facts_entry_step(obj))
}

fn facts_entry(key: &str, fields: &Vec<JsonField>) -> (r: Result<JsonValue, String>)
    ensures
        r matches Ok(v) ==> facts_entry_step(fields_view(fields@))(Seq::empty(), key@) == Ok::<
            Seq<(Seq<char>, JsonView)>,
            Seq<char>,
        >(seq![(key@, v.jv())]) && forall|acc: Seq<(Seq<char>, JsonView)>|
            #[trigger] facts_entry_step(fields_view(fields@))(acc, key@) == Ok::<
                Seq<(Seq<char>, JsonView)>,
                Seq<char>,
            >(field_set(acc, key@, v.jv())),
        r matches Err(e) ==> forall|acc: Seq<(Seq<char>, JsonView)>|
            #[trigger] facts_entry_step(fields_view(fields@))(acc, key@) == Err::<
                Seq<(Seq<char>, JsonView)>,
                Seq<char>,
            >(e@),
{
    let label = cat3("plan config/runtime selection facts entry `", key, "`");
    let entry = require_object_labeled(get_field(fields, key), label.as_str())?;
    let value = match get_field(entry, "value") {
        Some(v) => v,
        None => {
            return Err(
                cat3("Plan config/runtime selection facts entry `", key, "` is missing value."),
            );
        },
    };
    let value_label = cat2(key, ".value");
    let value_text = require_string(value, value_label.as_str())?;
    let name = normalize_backend_name(Some(value_text.as_str()))?;
    let source_value = match get_field(entry, "source") {
        Some(v) => v,
        None => {
            return Err(
                cat3("Plan config/runtime selection facts entry `", key, "` is missing source."),
            );
        },
    };
    let source_label = cat2(key, ".source");
    let source = require_string(source_value, source_label.as_str())?;
    if !str_eq(source.as_str(), "default") && !str_eq(source.as_str(), "env") && !str_eq(
        source.as_str(),
        "explicit",
    ) {
        return Err(
            cat5("Unsupported backend selection source `", source.as_str(), "` for `", key, "`."),
        );
    }
    let ghost nv = name@;
    let ghost sv = source@;
    let mut out: Vec<JsonField> = Vec::new();
    out.push(JsonField { key: owned("value"), value: JsonValue::String(name) });
    out.push(JsonField { key: owned("source"), value: JsonValue::String(source) });
    assert(fields_view(out@) =~= seq![("value"@, JsonView::Str(nv)), ("source"@, JsonView::Str(sv))]);
    let r = object_of(out);
    proof {
        assert(field_set(Seq::<(Seq<char>, JsonView)>::empty(), key@, r.jv()) =~= seq![(key@, r.jv())]);
    }
    Ok(r)
}

fn facts_map(fields: &Vec<JsonField>) -> (r: Result<Vec<JsonField>, String>)
    ensures
        fields_result_view(r) == spec_facts_map(fields_view(fields@)),
{
    let keys = selection_key_list();
    let ghost ks = selection_keys();
    let ghost step = facts_entry_step(fields_view(fields@));
    let mut out: Vec<JsonField> = Vec::new();
    assert(fields_view(out@) =~= Seq::<(Seq<char>, JsonView)>::empty());
    let mut i: usize = 0;
    while i < keys.len()
        invariant
            keys@.len() == ks.len(),
            ks == selection_keys(),
            forall|j: int| 0 <= j < keys@.len() ==> (#[trigger] keys@[j])@ == ks[j],
            step == facts_entry_step(fields_view(fields@)),
            i <= keys@.len(),
            spec_fold(ks.subrange(0, i as int), Seq::empty(), step) == Ok::<
                Seq<(Seq<char>, JsonView)>,
                Seq<char>,
            >(fields_view(out@)),
        decreases keys@.len() - i,
    {
        proof {
            lemma_fold_step(ks, Seq::empty(), step, i as int);
        }
        let key = keys[i];
        let entry = match facts_entry(key, fields) {
            Ok(v) => v,
            Err(e) => {
                proof {
                    assert(step(fields_view(out@), key@) == Err::<Seq<(Seq<char>, JsonView)>, Seq<char>>(e@));
                    lemma_fold_error_extends(ks, Seq::empty(), step, i + 1, e@);
                }
                return Err(e);
            },
        };
        proof {
            assert(step(fields_view(out@), key@) == Ok::<Seq<(Seq<char>, JsonView)>, Seq<char>>(
                field_set(fields_view(out@), key@, entry.jv()),
            ));
        }
        set_field(&mut out, owned(key), entry);
        i = i + 1;
    }
    proof {
        lemma_fold_whole(ks, Seq::empty(), step);
    }
    Ok(out)
}

// ----- plan authority, environment and reports ------------------------------

pub type Fields = Seq<(Seq<char>, JsonView)>;

/// The checked plan authority: its members kept, with the backend name,
/// readiness flags, compatibility text and issues normalized.
pub open spec fn spec_plan_authority(obj: Fields) -> Result<Fields, Seq<char>> {
    match field_get(obj, "selected_backend"@) {
        None => Err("Plan config/runtime plan_authority is missing selected_backend."@),
        Some(sb) => match spec_require_string(sb, "plan_authority.selected_backend"@) {
            Err(e) => Err(e),
            Ok(sbt) => match spec_backend_name(Some(sbt)) {
                Err(e) => Err(e),
                Ok(selected) => match spec_require_bool(
                    field_get(obj, "selected_backend_ready"@),
                    "plan_authority.selected_backend_ready"@,
                ) {
                    Err(e) => Err(e),
                    Ok(sbr) => match spec_require_bool(
                        field_get(obj, "rust_authority_ready"@),
                        "plan_authority.rust_authority_ready"@,
                    ) {
                        Err(e) => Err(e),
                        Ok(rar) => match spec_require_nonempty(
                            field_get(obj, "compatibility"@),
                            "plan_authority.compatibility"@,
                        ) {
                            Err(e) => Err(e),
                            Ok(c) => match spec_text_list(
                                field_get(obj, "issues"@),
                                "plan_authority.issues"@,
                                "plan_authority.issues"@,
                            ) {
                                Err(e) => Err(e),
                                Ok(issues) => Ok(
                                    field_set(
                                        field_set(
                                            field_set(
                                                field_set(
                                                    field_set(
                                                        obj,
                                                        "selected_backend"@,
                                                        JsonView::Str(selected),
                                                    ),
                                                    "selected_backend_ready"@,
                                                    JsonView::Bool(sbr),
                                                ),
                                                "rust_authority_ready"@,
                                                JsonView::Bool(rar),
                                            ),
                                            "compatibility"@,
                                            JsonView::Str(c),
                                        ),
                                        "issues"@,
                                        JsonView::Array(issues),
                                    ),
                                ),
                            },
                        },
                    },
                },
            },
        },
    }
}

fn plan_authority_map(fields: &Vec<JsonField>) -> (r: Result<Vec<JsonField>, String>)
    ensures
        fields_result_view(r) == spec_plan_authority(fields_view(fields@)),
{
    let sb = match get_field(fields, "selected_backend") {
        Some(v) => v,
        None => return Err(owned("Plan config/runtime plan_authority is missing selected_backend.")),
    };
    let sbt = require_string(sb, "plan_authority.selected_backend")?;
    let selected = normalize_backend_name(Some(sbt.as_str()))?;
    let sbr = require_bool(
        get_field(fields, "selected_backend_ready"),
        "plan_authority.selected_backend_ready",
    )?;
    let rar = require_bool(get_field(fields, "rust_authority_ready"), "plan_authority.rust_authority_ready")?;
    let compatibility = require_nonempty_text(
        get_field(fields, "compatibility"),
        "plan_authority.compatibility",
    )?;
    let issues = text_list(get_field(fields, "issues"), "plan_authority.issues", "plan_authority.issues")?;
    let mut out = copy_fields(fields);
    set_field(&mut out, owned("selected_backend"), JsonValue::String(selected));
    set_field(&mut out, owned("selected_backend_ready"), JsonValue::Bool(sbr));
    set_field(&mut out, owned("rust_authority_ready"), JsonValue::Bool(rar));
    set_field(&mut out, owned("compatibility"), JsonValue::String(compatibility));
    set_field(&mut out, owned("issues"), array_of(issues));
    Ok(out)
}

/// One environment entry: null kept, text trimmed.
pub open spec fn env_step() -> spec_fn(Fields, (Seq<char>, JsonView)) -> Result<Fields, Seq<char>> {
    |acc: Fields, entry: (Seq<char>, JsonView)|
        if entry.1 is Null {
            Ok(field_set(acc, entry.0, JsonView::Null))
        } else {
            match spec_require_string(entry.1, "env `"@ + entry.0 + "`"@) {
                Err(e) => Err(e),
                Ok(t) => Ok(field_set(acc, entry.0, JsonView::Str(spec_trim(t)))),
            }
        }
}

fn env_snapshot_map(fields: &Vec<JsonField>) -> (r: Result<Vec<JsonField>, String>)
    ensures
        fields_result_view(r) == spec_fold(fields_view(fields@), Seq::empty(), env_step()),
{
    let ghost fv = fields_view(fields@);
    let ghost step = env_step();
    let mut out: Vec<JsonField> = Vec::new();
    assert(fields_view(out@) =~= Seq::<(Seq<char>, JsonView)>::empty());
    let mut i: usize = 0;
    while i < fields.len()
        invariant
            fv == fields_view(fields@),
            step == env_step(),
            i <= fields@.len(),
            spec_fold(fv.subrange(0, i as int), Seq::empty(), step) == Ok::<Fields, Seq<char>>(
                fields_view(out@),
            ),
        decreases fields@.len() - i,
    {
        proof {
            lemma_fold_step(fv, Seq::empty(), step, i as int);
        }
        let key = &fields[i].key;
        let value = &fields[i].value;
        match value {
            JsonValue::Null => {
                set_field(&mut out, key.clone(), JsonValue::Null);
            },
            _ => {
                let label = cat3("env `", key.as_str(), "`");
                let text = match require_string(value, label.as_str()) {
                    Ok(t) => t,
                    Err(e) => {
                        proof {
                            lemma_fold_error_extends(fv, Seq::empty(), step, i + 1, e@);
                        }
                        return Err(e);
                    },
                };
                let t = trim_str(text.as_str());
                set_field(&mut out, key.clone(), JsonValue::String(string_from_chars(&t)));
            },
        }
        i = i + 1;
    }
    proof {
        lemma_fold_whole(fv, Seq::empty(), step);
    }
    Ok(out)
}

pub open spec fn object_member(obj: Fields, key: Seq<char>, label: Seq<char>) -> Result<Fields, Seq<char>> {
    match field_get(obj, key) {
        Some(JsonView::Object(o)) => Ok(o),
        _ => Err(label_object_error(label)),
    }
}

/// A compatibility report: checked selector facts and plan authority, the
/// verdict, issues and command surface.
pub open spec fn spec_compatibility_map(obj: Fields) -> Result<Fields, Seq<char>> {
    match object_member(obj, "selectors"@, "plan config/runtime compatibility selectors"@) {
        Err(e) => Err(e),
        Ok(sel_obj) => match spec_facts_map(sel_obj) {
            Err(e) => Err(e),
            Ok(selectors) => match object_member(
                obj,
                "plan_authority"@,
                "plan config/runtime compatibility plan_authority"@,
            ) {
                Err(e) => Err(e),
                Ok(pa_obj) => match spec_plan_authority(pa_obj) {
                    Err(e) => Err(e),
                    Ok(pa) => match spec_require_bool(field_get(obj, "compatible"@), "compatible"@) {
                        Err(e) => Err(e),
                        Ok(compatible) => match spec_text_list(
                            field_get(obj, "issues"@),
                            "issues"@,
                            "issues"@,
                        ) {
                            Err(e) => Err(e),
                            Ok(issues) => match spec_text_list(
                                field_get(obj, "surface_commands"@),
                                "surface_commands"@,
                                "surface_commands entry"@,
                            ) {
                                Err(e) => Err(e),
                                Ok(surface) => Ok(
                                    seq![
                                        ("selectors"@, JsonView::Object(selectors)),
                                        ("plan_authority"@, JsonView::Object(pa)),
                                        ("compatible"@, JsonView::Bool(compatible)),
                                        ("issues"@, JsonView::Array(issues)),
                                        ("surface_commands"@, JsonView::Array(surface)),
                                    ],
                                ),
                            },
                        },
                    },
                },
            },
        },
    }
}

fn object_member_of<'a>(fields: &'a Vec<JsonField>, key: &str, label: &str) -> (r: Result<
    &'a Vec<JsonField>,
    String,
>)
    ensures
        fields_result_ref(r) == object_member(fields_view(fields@), key@, label@),
{
    require_object_labeled(get_field(fields, key), label)
}

pub open spec fn fields_result_ref(r: Result<&Vec<JsonField>, String>) -> Result<Fields, Seq<char>> {
    match r {
        Ok(f) => Ok(fields_view(f@)),
        Err(e) => Err(e@),
    }
}

fn field(key: &str, value: JsonValue) -> (f: JsonField)
    ensures
        f.key@ == key@,
        f.value.jv() == value.jv(),
{
    JsonField { key: owned(key), value }
}

fn compatibility_map(fields: &Vec<JsonField>) -> (r: Result<Vec<JsonField>, String>)
    ensures
        fields_result_view(r) == spec_compatibility_map(fields_view(fields@)),
{
    let sel_obj = object_member_of(fields, "selectors", "plan config/runtime compatibility selectors")?;
    let selectors = facts_map(sel_obj)?;
    let pa_obj = object_member_of(
        fields,
        "plan_authority",
        "plan config/runtime compatibility plan_authority",
    )?;
    let pa = plan_authority_map(pa_obj)?;
    let compatible = require_bool(get_field(fields, "compatible"), "compatible")?;
    let issues = text_list(get_field(fields, "issues"), "issues", "issues")?;
    let surface = text_list(
        get_field(fields, "surface_commands"),
        "surface_commands",
        "surface_commands entry",
    )?;
    let ghost (sv, pv, iv, cv) = (fields_view(selectors@), fields_view(pa@), items_view(issues@), items_view(surface@));
    let mut out: Vec<JsonField> = Vec::new();
    out.push(field("selectors", object_of(selectors)));
    out.push(field("plan_authority", object_of(pa)));
    out.push(field("compatible", JsonValue::Bool(compatible)));
    out.push(field("issues", array_of(issues)));
    out.push(field("surface_commands", array_of(surface)));
    assert(fields_view(out@) =~= seq![
        ("selectors"@, JsonView::Object(sv)),
        ("plan_authority"@, JsonView::Object(pv)),
        ("compatible"@, JsonView::Bool(compatible)),
        ("issues"@, JsonView::Array(iv)),
        ("surface_commands"@, JsonView::Array(cv)),
    ]);
    Ok(out)
}

/// A readiness report: like a compatibility report with a readiness
/// verdict, and a storage readiness that must be absent or null.
pub open spec fn spec_readiness_map(obj: Fields) -> Result<Fields, Seq<char>> {
    match object_member(obj, "selectors"@, "plan config/runtime readiness selectors"@) {
        Err(e) => Err(e),
        Ok(sel_obj) => match spec_facts_map(sel_obj) {
            Err(e) => Err(e),
            Ok(selectors) => match object_member(
                obj,
                "plan_authority"@,
                "plan config/runtime readiness plan_authority"@,
            ) {
                Err(e) => Err(e),
                Ok(pa_obj) => match spec_plan_authority(pa_obj) {
                    Err(e) => Err(e),
                    Ok(pa) => if !(field_get(obj, "storage_readiness"@) is None || field_get(
                        obj,
                        "storage_readiness"@,
                    ) == Some(JsonView::Null)) {
                        Err("Plan config/runtime storage readiness must be null in this runtime."@)
                    } else {
                        match spec_require_bool(field_get(obj, "ready"@), "ready"@) {
                            Err(e) => Err(e),
                            Ok(ready) => match spec_text_list(
                                field_get(obj, "issues"@),
                                "issues"@,
                                "issues"@,
                            ) {
                                Err(e) => Err(e),
                                Ok(issues) => match spec_text_list(
                                    field_get(obj, "surface_commands"@),
                                    "surface_commands"@,
                                    "surface_commands entry"@,
                                ) {
                                    Err(e) => Err(e),
                                    Ok(surface) => Ok(
                                        seq![
                                            ("selectors"@, JsonView::Object(selectors)),
                                            ("plan_authority"@, JsonView::Object(pa)),
                                            ("storage_readiness"@, JsonView::Null),
                                            ("ready"@, JsonView::Bool(ready)),
                                            ("issues"@, JsonView::Array(issues)),
                                            ("surface_commands"@, JsonView::Array(surface)),
                                        ],
                                    ),
                                },
                            },
                        }
                    },
                },
            },
        },
    }
}

fn readiness_map(fields: &Vec<JsonField>) -> (r: Result<Vec<JsonField>, String>)
    ensures
        fields_result_view(r) == spec_readiness_map(fields_view(fields@)),
{
    let sel_obj = object_member_of(fields, "selectors", "plan config/runtime readiness selectors")?;
    let selectors = facts_map(sel_obj)?;
    let pa_obj = object_member_of(fields, "plan_authority", "plan config/runtime readiness plan_authority")?;
    let pa = plan_authority_map(pa_obj)?;
    match get_field(fields, "storage_readiness") {
        None => {},
        Some(JsonValue::Null) => {},
        Some(_) => {
            return Err(owned("Plan config/runtime storage readiness must be null in this runtime."));
        },
    }
    let ready = require_bool(get_field(fields, "ready"), "ready")?;
    let issues = text_list(get_field(fields, "issues"), "issues", "issues")?;
    let surface = text_list(
        get_field(fields, "surface_commands"),
        "surface_commands",
        "surface_commands entry",
    )?;
    let ghost (sv, pv, iv, cv) = (fields_view(selectors@), fields_view(pa@), items_view(issues@), items_view(surface@));
    let mut out: Vec<JsonField> = Vec::new();
    out.push(field("selectors", object_of(selectors)));
    out.push(field("plan_authority", object_of(pa)));
    out.push(field("storage_readiness", JsonValue::Null));
    out.push(field("ready", JsonValue::Bool(ready)));
    out.push(field("issues", array_of(issues)));
    out.push(field("surface_commands", array_of(surface)));
    assert(fields_view(out@) =~= seq![
        ("selectors"@, JsonView::Object(sv)),
        ("plan_authority"@, JsonView::Object(pv)),
        ("storage_readiness"@, JsonView::Null),
        ("ready"@, JsonView::Bool(ready)),
        ("issues"@, JsonView::Array(iv)),
        ("surface_commands"@, JsonView::Array(cv)),
    ]);
    Ok(out)
}

/// A doctor report: checked selector facts, the compatibility and
/// readiness reports it contains, the environment snapshot and the command
/// surface.
pub open spec fn spec_doctor_map(obj: Fields) -> Result<Fields, Seq<char>> {
    match object_member(obj, "selectors"@, "plan config/runtime doctor selectors"@) {
        Err(e) => Err(e),
        Ok(sel_obj) => match spec_facts_map(sel_obj) {
            Err(e) => Err(e),
            Ok(selectors) => match object_member(
                obj,
                "compatibility"@,
                "plan config/runtime doctor compatibility"@,
            ) {
                Err(e) => Err(e),
                Ok(c_obj) => match spec_compatibility_map(c_obj) {
                    Err(e) => Err(e),
                    Ok(compatibility) => match object_member(
                        obj,
                        "readiness"@,
                        "plan config/runtime doctor readiness"@,
                    ) {
                        Err(e) => Err(e),
                        Ok(r_obj) => match spec_readiness_map(r_obj) {
                            Err(e) => Err(e),
                            Ok(readiness) => match object_member(
                                obj,
                                "env"@,
                                "plan config/runtime doctor env"@,
                            ) {
                                Err(e) => Err(e),
                                Ok(env_obj) => match spec_fold(env_obj, Seq::empty(), env_step()) {
                                    Err(e) => Err(e),
                                    Ok(env) => match spec_text_list(
                                        field_get(obj, "surface_commands"@),
                                        "surface_commands"@,
                                        "surface_commands entry"@,
                                    ) {
                                        Err(e) => Err(e),
                                        Ok(surface) => Ok(
                                            seq![
                                                ("selectors"@, JsonView::Object(selectors)),
                                                ("compatibility"@, JsonView::Object(compatibility)),
                                                ("readiness"@, JsonView::Object(readiness)),
                                                ("env"@, JsonView::Object(env)),
                                                ("surface_commands"@, JsonView::Array(surface)),
                                            ],
                                        ),
                                    },
                                },
                            },
                        },
                    },
                },
            },
        },
    }
}

fn doctor_map(fields: &Vec<JsonField>) -> (r: Result<Vec<JsonField>, String>)
    ensures
        fields_result_view(r) == spec_doctor_map(fields_view(fields@)),
{
    let sel_obj = object_member_of(fields, "selectors", "plan config/runtime doctor selectors")?;
    let selectors = facts_map(sel_obj)?;
    let c_obj = object_member_of(fields, "compatibility", "plan config/runtime doctor compatibility")?;
    let compatibility = compatibility_map(c_obj)?;
    let r_obj = object_member_of(fields, "readiness", "plan config/runtime doctor readiness")?;
    let readiness = readiness_map(r_obj)?;
    let env_obj = object_member_of(fields, "env", "plan config/runtime doctor env")?;
    let env = env_snapshot_map(env_obj)?;
    let surface = text_list(
        get_field(fields, "surface_commands"),
        "surface_commands",
        "surface_commands entry",
    )?;
    let ghost (sv, cv, rv, ev, uv) = (
        fields_view(selectors@),
        fields_view(compatibility@),
        fields_view(readiness@),
        fields_view(env@),
        items_view(surface@),
    );
    let mut out: Vec<JsonField> = Vec::new();
    out.push(field("selectors", object_of(selectors)));
    out.push(field("compatibility", object_of(compatibility)));
    out.push(field("readiness", object_of(readiness)));
    out.push(field("env", object_of(env)));
    out.push(field("surface_commands", array_of(surface)));
    assert(fields_view(out@) =~= seq![
        ("selectors"@, JsonView::Object(sv)),
        ("compatibility"@, JsonView::Object(cv)),
        ("readiness"@, JsonView::Object(rv)),
        ("env"@, JsonView::Object(ev)),
        ("surface_commands"@, JsonView::Array(uv)),
    ]);
    Ok(out)
}

// ----- the public payload operations -----------------------------------------

/// A payload must be an object; the label names it in the refusal.
pub open spec fn spec_payload(payload: JsonView, label: Seq<char>) -> Result<Fields, Seq<char>> {
    match payload {
        JsonView::Object(obj) => Ok(obj),
        _ => Err(label_object_error(label)),
    }
}

pub open spec fn spec_selection_request(payload: JsonView) -> Result<JsonView, Seq<char>> {
    match spec_payload(payload, "plan config/runtime selection request"@) {
        Err(e) => Err(e),
        Ok(obj) => spec_selection_request_map(obj),
    }
}

pub open spec fn spec_selection_facts(payload: JsonView) -> Result<JsonView, Seq<char>> {
    match spec_payload(payload, "plan config/runtime selection request"@) {
        Err(e) => Err(e),
        Ok(obj) => spec_selection_facts_map(obj),
    }
}

pub open spec fn spec_selection_facts_payload(payload: JsonView) -> Result<JsonView, Seq<char>> {
    match spec_payload(payload, "plan config/runtime selection facts"@) {
        Err(e) => Err(e),
        Ok(obj) => match spec_facts_map(obj) {
            Err(e) => Err(e),
            Ok(f) => Ok(JsonView::Object(f)),
        },
    }
}

pub open spec fn spec_compatibility(payload: JsonView) -> Result<JsonView, Seq<char>> {
    match spec_payload(payload, "plan config/runtime compatibility"@) {
        Err(e) => Err(e),
        Ok(obj) => match spec_compatibility_map(obj) {
            Err(e) => Err(e),
            Ok(f) => Ok(JsonView::Object(f)),
        },
    }
}

pub open spec fn spec_readiness(payload: JsonView) -> Result<JsonView, Seq<char>> {
    match spec_payload(payload, "plan config/runtime readiness"@) {
        Err(e) => Err(e),
        Ok(obj) => match spec_readiness_map(obj) {
            Err(e) => Err(e),
            Ok(f) => Ok(JsonView::Object(f)),
        },
    }
}

pub open spec fn spec_doctor(payload: JsonView) -> Result<JsonView, Seq<char>> {
    match spec_payload(payload, "plan config/runtime doctor"@) {
        Err(e) => Err(e),
        Ok(obj) => match spec_doctor_map(obj) {
            Err(e) => Err(e),
            Ok(f) => Ok(JsonView::Object(f)),
        },
    }
}

fn payload_fields<'a>(payload: &'a JsonValue, label: &str) -> (r: Result<&'a Vec<JsonField>, String>)
    ensures
        fields_result_ref(r) == spec_payload(payload.jv(), label@),
{
    require_object_labeled(Some(payload), label)
}

fn fields_result_to_object(r: Result<Vec<JsonField>, String>) -> (o: Result<JsonValue, String>)
    ensures
        json_result_view(o) == match fields_result_view(r) {
            Ok(f) => Ok(JsonView::Object(f)),
            Err(e) => Err::<JsonView, Seq<char>>(e),
        },
{
    match r {
        Ok(f) => Ok(object_of(f)),
        Err(e) => Err(e),
    }
}

pub fn normalize_plan_runtime_selection_request_payload_json(payload: &JsonValue) -> (r: Result<
    JsonValue,
    String,
>)
    ensures
        json_result_view(r) == spec_selection_request(payload.jv()),
{
    let fields = payload_fields(payload, "plan config/runtime selection request")?;
    selection_request_map(fields)
}

pub fn build_plan_runtime_selection_facts_json(payload: &JsonValue) -> (r: Result<JsonValue, String>)
    ensures
        json_result_view(r) == spec_selection_facts(payload.jv()),
{
    let fields = payload_fields(payload, "plan config/runtime selection request")?;
    selection_facts_map(fields)
}

pub fn normalize_plan_runtime_selection_facts_payload_json(payload: &JsonValue) -> (r: Result<
    JsonValue,
    String,
>)
    ensures
        json_result_view(r) == spec_selection_facts_payload(payload.jv()),
{
    let fields = payload_fields(payload, "plan config/runtime selection facts")?;
    fields_result_to_object(facts_map(fields))
}

pub fn normalize_plan_runtime_compatibility_payload_json(payload: &JsonValue) -> (r: Result<
    JsonValue,
    String,
>)
    ensures
        json_result_view(r) == spec_compatibility(payload.jv()),
{
    let fields = payload_fields(payload, "plan config/runtime compatibility")?;
    fields_result_to_object(compatibility_map(fields))
}

pub fn normalize_plan_runtime_readiness_payload_json(payload: &JsonValue) -> (r: Result<
    JsonValue,
    String,
>)
    ensures
        json_result_view(r) == spec_readiness(payload.jv()),
{
    let fields = payload_fields(payload, "plan config/runtime readiness")?;
    fields_result_to_object(readiness_map(fields))
}

pub fn normalize_plan_runtime_doctor_payload_json(payload: &JsonValue) -> (r: Result<JsonValue, String>)
    ensures
        json_result_view(r) == spec_doctor(payload.jv()),
{
    let fields = payload_fields(payload, "plan config/runtime doctor")?;
    fields_result_to_object(doctor_map(fields))
}

/// The runtime configuration operations over a store of the caller's
/// choice.
pub struct RuntimeConfigJson<S> {
    store: S,
}

impl RuntimeConfigJson<()> {
    pub fn stateless() -> (r: Self) {
        Self::new(())
    }
}

impl<S> RuntimeConfigJson<S> {
    /// The store this value works over.
    pub closed spec fn held_store(&self) -> S {
        self.store
    }

    pub fn new(store: S) -> (r: Self)
        ensures
            r.held_store() == store,
    {
        RuntimeConfigJson { store }
    }

    pub fn normalize_runtime_selection_request_payload_json(&self, payload: &JsonValue) -> (r: Result<
        JsonValue,
        String,
    >)
        ensures
            json_result_view(r) == spec_selection_request(payload.jv()),
    {
        normalize_plan_runtime_selection_request_payload_json(payload)
    }

    pub fn build_runtime_selection_facts_json(&self, payload: &JsonValue) -> (r: Result<JsonValue, String>)
        ensures
            json_result_view(r) == spec_selection_facts(payload.jv()),
    {
        build_plan_runtime_selection_facts_json(payload)
    }

    pub fn normalize_runtime_selection_facts_payload_json(&self, payload: &JsonValue) -> (r: Result<
        JsonValue,
        String,
    >)
        ensures
            json_result_view(r) == spec_selection_facts_payload(payload.jv()),
    {
        normalize_plan_runtime_selection_facts_payload_json(payload)
    }

    pub fn normalize_runtime_compatibility_payload_json(&self, payload: &JsonValue) -> (r: Result<
        JsonValue,
        String,
    >)
        ensures
            json_result_view(r) == spec_compatibility(payload.jv()),
    {
        normalize_plan_runtime_compatibility_payload_json(payload)
    }

    pub fn normalize_runtime_readiness_payload_json(&self, payload: &JsonValue) -> (r: Result<
        JsonValue,
        String,
    >)
        ensures
            json_result_view(r) == spec_readiness(payload.jv()),
    {
        normalize_plan_runtime_readiness_payload_json(payload)
    }

    pub fn normalize_runtime_doctor_payload_json(&self, payload: &JsonValue) -> (r: Result<
        JsonValue,
        String,
    >)
        ensures
            json_result_view(r) == spec_doctor(payload.jv()),
    {
        normalize_plan_runtime_doctor_payload_json(payload)
    }
}

/// A source of runtime configuration normalization, for callers to supply.
pub trait ConfigProvider {
    fn normalize_runtime_selection_request_payload_json(&self, payload: &JsonValue) -> Result<
        JsonValue,
        String,
    >;

    fn build_runtime_selection_facts_json(&self, payload: &JsonValue) -> Result<JsonValue, String>;

    fn normalize_runtime_selection_facts_payload_json(&self, payload: &JsonValue) -> Result<
        JsonValue,
        String,
    >;

    fn normalize_runtime_compatibility_payload_json(&self, payload: &JsonValue) -> Result<
        JsonValue,
        String,
    >;

    fn normalize_runtime_readiness_payload_json(&self, payload: &JsonValue) -> Result<
        JsonValue,
        String,
    >;

    fn normalize_runtime_doctor_payload_json(&self, payload: &JsonValue) -> Result<JsonValue, String>;
}

/// The built-in provider: the normalizers of this module.
pub struct RuntimeConfigFoundation;

impl ConfigProvider for RuntimeConfigFoundation {
    fn normalize_runtime_selection_request_payload_json(&self, payload: &JsonValue) -> (r: Result<
        JsonValue,
        String,
    >)
        ensures
            json_result_view(r) == spec_selection_request(payload.jv()),
    {
        normalize_plan_runtime_selection_request_payload_json(payload)
    }

    fn build_runtime_selection_facts_json(&self, payload: &JsonValue) -> (r: Result<JsonValue, String>)
        ensures
            json_result_view(r) == spec_selection_facts(payload.jv()),
    {
        build_plan_runtime_selection_facts_json(payload)
    }

    fn normalize_runtime_selection_facts_payload_json(&self, payload: &JsonValue) -> (r: Result<
        JsonValue,
        String,
    >)
        ensures
            json_result_view(r) == spec_selection_facts_payload(payload.jv()),
    {
        normalize_plan_runtime_selection_facts_payload_json(payload)
    }

    fn normalize_runtime_compatibility_payload_json(&self, payload: &JsonValue) -> (r: Result<
        JsonValue,
        String,
    >)
        ensures
            json_result_view(r) == spec_compatibility(payload.jv()),
    {
        normalize_plan_runtime_compatibility_payload_json(payload)
    }

    fn normalize_runtime_readiness_payload_json(&self, payload: &JsonValue) -> (r: Result<
        JsonValue,
        String,
    >)
        ensures
            json_result_view(r) == spec_readiness(payload.jv()),
    {
        normalize_plan_runtime_readiness_payload_json(payload)
    }

    fn normalize_runtime_doctor_payload_json(&self, payload: &JsonValue) -> (r: Result<
        JsonValue,
        String,
    >)
        ensures
            json_result_view(r) == spec_doctor(payload.jv()),
    {
        normalize_plan_runtime_doctor_payload_json(payload)
    }
}

/// What the provider's own `normalize_runtime_selection_request_payload_json` returns for this payload.
pub fn normalize_plan_runtime_selection_request_with_config_provider<P: ConfigProvider>(
    provider: &P,
    payload: &JsonValue,
) -> (r: Result<JsonValue, String>)
    ensures
        call_ensures(P::normalize_runtime_selection_request_payload_json, (provider, payload), r),
{
    provider.normalize_runtime_selection_request_payload_json(payload)
}

/// What the provider's own `build_runtime_selection_facts_json` returns for this payload.
pub fn build_plan_runtime_selection_facts_with_config_provider<P: ConfigProvider>(
    provider: &P,
    payload: &JsonValue,
) -> (r: Result<JsonValue, String>)
    ensures
        call_ensures(P::build_runtime_selection_facts_json, (provider, payload), r),
{
    provider.build_runtime_selection_facts_json(payload)
}

/// What the provider's own `normalize_runtime_selection_facts_payload_json` returns for this payload.
pub fn normalize_plan_runtime_selection_facts_with_config_provider<P: ConfigProvider>(
    provider: &P,
    payload: &JsonValue,
) -> (r: Result<JsonValue, String>)
    ensures
        call_ensures(P::normalize_runtime_selection_facts_payload_json, (provider, payload), r),
{
    provider.normalize_runtime_selection_facts_payload_json(payload)
}

/// What the provider's own `normalize_runtime_compatibility_payload_json` returns for this payload.
pub fn normalize_plan_runtime_compatibility_with_config_provider<P: ConfigProvider>(
    provider: &P,
    payload: &JsonValue,
) -> (r: Result<JsonValue, String>)
    ensures
        call_ensures(P::normalize_runtime_compatibility_payload_json, (provider, payload), r),
{
    provider.normalize_runtime_compatibility_payload_json(payload)
}

/// What the provider's own `normalize_runtime_readiness_payload_json` returns for this payload.
pub fn normalize_plan_runtime_readiness_with_config_provider<P: ConfigProvider>(
    provider: &P,
    payload: &JsonValue,
) -> (r: Result<JsonValue, String>)
    ensures
        call_ensures(P::normalize_runtime_readiness_payload_json, (provider, payload), r),
{
    provider.normalize_runtime_readiness_payload_json(payload)
}

/// What the provider's own `normalize_runtime_doctor_payload_json` returns for this payload.
pub fn normalize_plan_runtime_doctor_with_config_provider<P: ConfigProvider>(
    provider: &P,
    payload: &JsonValue,
) -> (r: Result<JsonValue, String>)
    ensures
        call_ensures(P::normalize_runtime_doctor_payload_json, (provider, payload), r),
{
    provider.normalize_runtime_doctor_payload_json(payload)
}

} // verus!
