//! Tree payloads as a tree pack stores them: the JSON object that lists a
//! tree's entries, its normal form, and the entry views read from it.

use vstd::prelude::*;

use crate::error::{BinaryDbError, BinaryDbErrorKind, StoreResult};
use crate::generation::tree_identity::{sort_by_name, sorted_by_name};
use crate::ids::{
    blob_id_index_key, spec_parse_prefixed_hex, spec_prefixed_hex_error, tree_id_index_key,
};
use crate::json::{
    array_of, copy_fields, field_get, field_remove, fields_view, get_field, items_view, object_of,
    remove_field, view_get, JsonField, JsonValue, JsonView,
};
use crate::local_support::spec_json_as_u64;
use crate::read::BinaryTreeEntryView;
use crate::text::{cat2, chars_of, owned, push_str, str_eq, string_from_chars};

verus! {

// ----- entry names and paths --------------------------------------------------------

/// A tree entry name is one safe path segment: not empty, not `.` or `..`,
/// and without `/`, `\` or NUL.
pub open spec fn entry_name_ok(name: Seq<char>) -> bool {
    &&& name.len() > 0
    &&& name != "."@ && name != ".."@
    &&& !name.contains('/') && !name.contains('\\') && !name.contains('\0')
}

fn has_char(v: &Vec<char>, c: char) -> (r: bool)
    ensures
        r == v@.contains(c),
{
    let mut i: usize = 0;
    while i < v.len()
        invariant
            i <= v@.len(),
            forall|k: int| 0 <= k < i ==> v@[k] != c,
        decreases v@.len() - i,
    {
        if v[i] == c {
            return true;
        }
        i = i + 1;
    }
    false
}

fn invalid(message: String) -> (e: BinaryDbError)
    ensures
        e.kind == BinaryDbErrorKind::Invalid,
        e.message@ == message@,
{
    BinaryDbError::new(BinaryDbErrorKind::Invalid, message)
}

fn corruption(message: &str) -> (e: BinaryDbError)
    ensures
        e.kind == BinaryDbErrorKind::Corruption,
        e.message@ == message@,
{
    BinaryDbError::new(BinaryDbErrorKind::Corruption, owned(message))
}

/// Accepts a tree entry name exactly when it is one safe path segment.
pub fn validate_tree_entry_name(name: &str) -> (r: StoreResult<()>)
    ensures
        r is Ok <==> entry_name_ok(name@),
        r matches Err(e) ==> e.kind == BinaryDbErrorKind::Invalid && e.message@ == if name@.len()
            == 0 {
            "tree entry name must not be empty"@
        } else {
            "tree entry name must be a single safe path segment: "@ + name@
        },
{
    let chars = chars_of(name);
    if chars.len() == 0 {
        return Err(invalid(owned("tree entry name must not be empty")));
    }
    if str_eq(name, ".") || str_eq(name, "..") || has_char(&chars, '/') || has_char(&chars, '\\')
        || has_char(&chars, '\0') {
        return Err(invalid(cat2("tree entry name must be a single safe path segment: ", name)));
    }
    Ok(())
}

/// The path of entry `name` below `prefix`; the name alone at the root.
pub fn join_path(prefix: &str, name: &str) -> (r: String)
    ensures
        r@ == if prefix@.len() == 0 {
            name@
        } else {
            prefix@ + "/"@ + name@
        },
{
    let p = chars_of(prefix);
    if p.len() == 0 {
        owned(name)
    } else {
        let mut v = p;
        push_str(&mut v, "/");
        push_str(&mut v, name);
        string_from_chars(&v)
    }
}

// ----- entry views ----------------------------------------------------------------

/// The text of member `key`, when it is a string.
pub open spec fn text_at(fields: Seq<(Seq<char>, JsonView)>, key: Seq<char>) -> Option<Seq<char>> {
    match field_get(fields, key) {
        Some(JsonView::Str(s)) => Some(s),
        _ => None,
    }
}

/// The entry view of row `ordinal` of a tree payload, or the kind and
/// message of the error that refuses it.
pub open spec fn spec_entry_view(ordinal: int, row: JsonView) -> Result<
    (u32, Seq<char>, Seq<char>, Seq<char>, Option<u64>, Option<Seq<char>>),
    (BinaryDbErrorKind, Seq<char>),
> {
    match row {
        JsonView::Object(fields) => match text_at(fields, "entry_name"@) {
            None => Err((BinaryDbErrorKind::Corruption, "tree-pack entry is missing entry_name"@)),
            Some(name) => if !entry_name_ok(name) {
                Err(
                    (
                        BinaryDbErrorKind::Invalid,
                        if name.len() == 0 {
                            "tree entry name must not be empty"@
                        } else {
                            "tree entry name must be a single safe path segment: "@ + name
                        },
                    ),
                )
            } else {
                match text_at(fields, "entry_type"@) {
                    None => Err((BinaryDbErrorKind::Corruption, "tree-pack entry is missing entry_type"@)),
                    Some(ty) => match text_at(fields, "target_id"@) {
                        None => Err(
                            (BinaryDbErrorKind::Corruption, "tree-pack entry is missing target_id"@),
                        ),
                        Some(target) => if ty != "blob"@ && ty != "tree"@ {
                            Err(
                                (
                                    BinaryDbErrorKind::Corruption,
                                    "unsupported tree-pack entry type: "@ + ty,
                                ),
                            )
                        } else if ty == "blob"@ && spec_parse_prefixed_hex(target, "BLB-"@, 10) is None {
                            Err(
                                (
                                    BinaryDbErrorKind::Invalid,
                                    spec_prefixed_hex_error(target, "BLB-"@, 10),
                                ),
                            )
                        } else if ty == "tree"@ && spec_parse_prefixed_hex(target, "TRE-"@, 10) is None {
                            Err(
                                (
                                    BinaryDbErrorKind::Invalid,
                                    spec_prefixed_hex_error(target, "TRE-"@, 10),
                                ),
                            )
                        } else if ordinal > u32::MAX {
                            Err(
                                (
                                    BinaryDbErrorKind::Corruption,
                                    "tree-pack entry ordinal overflows u32"@,
                                ),
                            )
                        } else {
                            Ok(
                                (
                                    ordinal as u32,
                                    name,
                                    ty,
                                    target,
                                    match field_get(fields, "size_bytes"@) {
                                        Some(v) => spec_json_as_u64(v),
                                        None => None,
                                    },
                                    text_at(fields, "mode"@),
                                ),
                            )
                        },
                    },
                }
            },
        },
        _ => Err((BinaryDbErrorKind::Corruption, "tree-pack entry must be an object"@)),
    }
}

pub open spec fn entry_view_tuple(v: BinaryTreeEntryView) -> (
    u32,
    Seq<char>,
    Seq<char>,
    Seq<char>,
    Option<u64>,
    Option<Seq<char>>,
) {
    (
        v.entry_ordinal,
        v.entry_name@,
        v.entry_type@,
        v.target_id@,
        v.size_bytes,
        match v.mode {
            Some(m) => Some(m@),
            None => None,
        },
    )
}

pub open spec fn entry_tuples(vs: Seq<BinaryTreeEntryView>) -> Seq<
    (u32, Seq<char>, Seq<char>, Seq<char>, Option<u64>, Option<Seq<char>>),
> {
    Seq::new(vs.len(), |i: int| entry_view_tuple(vs[i]))
}

fn text_member(fields: &Vec<JsonField>, key: &str) -> (r: Option<String>)
    ensures
        match r {
            Some(t) => text_at(fields_view(fields@), key@) == Some(t@),
            None => text_at(fields_view(fields@), key@) is None,
        },
{
    match crate::json::get_field(fields, key) {
        Some(JsonValue::String(t)) => Some(t.clone()),
        _ => None,
    }
}

/// The entry view of row `ordinal` of a tree payload. The row must be an
/// object with a safe `entry_name`, an `entry_type` of `blob` or `tree`,
/// and a `target_id` that is a valid id of that type; `size_bytes` and
/// `mode` are taken when they have the right JSON type.
pub fn tree_entry_view_from_json(ordinal: usize, row: &JsonValue) -> (r: StoreResult<BinaryTreeEntryView>)
    ensures
        match r {
            Ok(v) => spec_entry_view(ordinal as int, row.jv()) == Ok::<
                (u32, Seq<char>, Seq<char>, Seq<char>, Option<u64>, Option<Seq<char>>),
                (BinaryDbErrorKind, Seq<char>),
            >(entry_view_tuple(v)),
            Err(e) => spec_entry_view(ordinal as int, row.jv()) == Err::<
                (u32, Seq<char>, Seq<char>, Seq<char>, Option<u64>, Option<Seq<char>>),
                (BinaryDbErrorKind, Seq<char>),
            >((e.kind, e.message@)),
        },
{
    let fields = match row {
        JsonValue::Object(fields) => fields,
        _ => {
            return Err(corruption("tree-pack entry must be an object"));
        },
    };
    proof {
        crate::json::lemma_object_view(*fields);
    }
    let entry_name = match text_member(fields, "entry_name") {
        Some(t) => t,
        None => {
            return Err(corruption("tree-pack entry is missing entry_name"));
        },
    };
    if let Err(e) = validate_tree_entry_name(entry_name.as_str()) {
        return Err(e);
    }
    let entry_type = match text_member(fields, "entry_type") {
        Some(t) => t,
        None => {
            return Err(corruption("tree-pack entry is missing entry_type"));
        },
    };
    let target_id = match text_member(fields, "target_id") {
        Some(t) => t,
        None => {
            return Err(corruption("tree-pack entry is missing target_id"));
        },
    };
    proof {
        reveal_strlit("blob");
        reveal_strlit("tree");
    }
    if str_eq(entry_type.as_str(), "blob") {
        if let Err(e) = blob_id_index_key(target_id.as_str()) {
            return Err(e);
        }
        assert(entry_type@ != "tree"@) by {
            assert(entry_type@[0] != "tree"@[0]);
        }
    } else if str_eq(entry_type.as_str(), "tree") {
        if let Err(e) = tree_id_index_key(target_id.as_str()) {
            return Err(e);
        }
        assert(entry_type@ != "blob"@) by {
            assert(entry_type@[0] != "blob"@[0]);
        }
    } else {
        return Err(
            BinaryDbError::new(
                BinaryDbErrorKind::Corruption,
                cat2("unsupported tree-pack entry type: ", entry_type.as_str()),
            ),
        );
    }
    if ordinal > 0xffff_ffff {
        return Err(corruption("tree-pack entry ordinal overflows u32"));
    }
    let size_bytes = match crate::json::get_field(fields, "size_bytes") {
        Some(v) => crate::local_support::json_as_u64(v),
        None => None,
    };
    let mode = text_member(fields, "mode");
    proof {
        assert(row.jv() == JsonView::Object(fields_view(fields@)));
    }
    Ok(
        BinaryTreeEntryView {
            entry_ordinal: ordinal as u32,
            entry_name,
            entry_type,
            target_id,
            size_bytes,
            mode,
        },
    )
}

/// The entry views of the first `n` rows, or the first row's refusal.
pub open spec fn spec_entry_views(rows: Seq<JsonView>, n: nat) -> Result<
    Seq<(u32, Seq<char>, Seq<char>, Seq<char>, Option<u64>, Option<Seq<char>>)>,
    (BinaryDbErrorKind, Seq<char>),
>
    decreases n,
{
    if n == 0 {
        Ok(Seq::empty())
    } else {
        match spec_entry_views(rows, (n - 1) as nat) {
            Err(e) => Err(e),
            Ok(acc) => match spec_entry_view(n - 1, rows[n - 1]) {
                Err(e) => Err(e),
                Ok(t) => Ok(acc.push(t)),
            },
        }
    }
}

proof fn lemma_entry_views_error_extends(rows: Seq<JsonView>, k: nat, n: nat)
    requires
        k <= n,
        spec_entry_views(rows, k) is Err,
    ensures
        spec_entry_views(rows, n) == spec_entry_views(rows, k),
    decreases n - k,
{
    if k < n {
        lemma_entry_views_error_extends(rows, k, (n - 1) as nat);
    }
}

/// The entry views of a tree payload's `entries`, in name order (entries
/// with equal names keep their order). Fails when `entries` is not an
/// array, or at the first row that is refused.
pub fn tree_entry_views_from_payload(payload: &JsonValue) -> (r: StoreResult<Vec<BinaryTreeEntryView>>)
    ensures
        match view_get(payload.jv(), "entries"@) {
            Some(JsonView::Array(rows)) => match r {
                Ok(v) => spec_entry_views(rows, rows.len()) is Ok && exists|u: Seq<BinaryTreeEntryView>|
                    entry_tuples(u) == spec_entry_views(rows, rows.len())->Ok_0 && v@ == sort_by_name(
                        u,
                    ),
                Err(e) => spec_entry_views(rows, rows.len()) == Err::<
                    Seq<(u32, Seq<char>, Seq<char>, Seq<char>, Option<u64>, Option<Seq<char>>)>,
                    (BinaryDbErrorKind, Seq<char>),
                >((e.kind, e.message@)),
            },
            _ => r matches Err(e) && e.kind == BinaryDbErrorKind::Corruption && e.message@
                == "tree-pack payload is missing entries"@,
        },
{
    let items = match payload.get("entries") {
        Some(JsonValue::Array(items)) => items,
        _ => {
            return Err(corruption("tree-pack payload is missing entries"));
        },
    };
    let ghost rows = items_view(items@);
    proof {
        crate::json::lemma_array_view(*items);
    }
    let mut views: Vec<BinaryTreeEntryView> = Vec::new();
    proof {
        assert(entry_tuples(views@) =~= Seq::empty());
    }
    let mut i: usize = 0;
    while i < items.len()
        invariant
            rows == items_view(items@),
            view_get(payload.jv(), "entries"@) == Some(JsonView::Array(rows)),
            i <= items@.len(),
            spec_entry_views(rows, i as nat) == Ok::<
                Seq<(u32, Seq<char>, Seq<char>, Seq<char>, Option<u64>, Option<Seq<char>>)>,
                (BinaryDbErrorKind, Seq<char>),
            >(entry_tuples(views@)),
        decreases items@.len() - i,
    {
        let view = match tree_entry_view_from_json(i, &items[i]) {
            Ok(v) => v,
            Err(e) => {
                proof {
                    assert(rows[i as int] == items@[i as int].jv());
                    assert(spec_entry_views(rows, (i + 1) as nat) == Err::<
                        Seq<(u32, Seq<char>, Seq<char>, Seq<char>, Option<u64>, Option<Seq<char>>)>,
                        (BinaryDbErrorKind, Seq<char>),
                    >((e.kind, e.message@)));
                    lemma_entry_views_error_extends(rows, (i + 1) as nat, rows.len());
                }
                return Err(e);
            },
        };
        proof {
            assert(rows[i as int] == items@[i as int].jv());
        }
        let ghost before = views@;
        views.push(view);
        assert(entry_tuples(views@) =~= entry_tuples(before).push(entry_view_tuple(view)));
        i = i + 1;
    }
    let sorted = sorted_by_name(&views);
    Ok(sorted)
}

// ----- payload normal form --------------------------------------------------------

/// A row without its `tree_id` member; a row that is not an object stays as
/// it is.
pub open spec fn strip_tree_id(row: JsonView) -> JsonView {
    match row {
        JsonView::Object(fields) => JsonView::Object(field_remove(fields, "tree_id"@)),
        other => other,
    }
}

/// The normal form of a tree payload: an object with the tree's `entries`
/// and its `tree_id`, members in key order.
pub open spec fn tree_payload_view(tree_id: Seq<char>, rows: Seq<JsonView>) -> JsonView {
    JsonView::Object(
        seq![("entries"@, JsonView::Array(rows)), ("tree_id"@, JsonView::Str(tree_id))],
    )
}

/// The member `entries`, or else the member `rows`.
pub open spec fn entries_or_rows(fields: Seq<(Seq<char>, JsonView)>) -> Option<JsonView> {
    match field_get(fields, "entries"@) {
        Some(v) => Some(v),
        None => field_get(fields, "rows"@),
    }
}

/// The text of member `key`, or `default` when it is absent or not a string.
pub open spec fn text_or(fields: Seq<(Seq<char>, JsonView)>, key: Seq<char>, default: Seq<char>) -> Seq<char> {
    match text_at(fields, key) {
        Some(t) => t,
        None => default,
    }
}

/// What a stored tree payload normalizes to, or the message of the
/// corruption error that refuses it. A bare array is the entry list of the
/// expected tree; an object gives its rows under `entries` or `rows`,
/// directly or in one nested object, and its `tree_id` when it has one.
/// Rows read from an object lose their own `tree_id` member.
pub open spec fn spec_normalize_tree_payload(expected: Seq<char>, payload: JsonView) -> Result<
    JsonView,
    Seq<char>,
> {
    match payload {
        JsonView::Array(rows) => Ok(tree_payload_view(expected, rows)),
        JsonView::Object(fields) => {
            let tree_id = text_or(fields, "tree_id"@, expected);
            match entries_or_rows(fields) {
                None => Err("tree-pack payload is missing rows"@),
                Some(JsonView::Array(rows)) => Ok(
                    tree_payload_view(tree_id, rows.map_values(|row: JsonView| strip_tree_id(row))),
                ),
                Some(JsonView::Object(nested)) => match entries_or_rows(nested) {
                    Some(JsonView::Array(rows)) => Ok(
                        tree_payload_view(
                            text_or(nested, "tree_id"@, tree_id),
                            rows.map_values(|row: JsonView| strip_tree_id(row)),
                        ),
                    ),
                    _ => Err("nested tree-pack payload is missing rows"@),
                },
                Some(_) => Err("tree-pack rows must be an array or object"@),
            }
        },
        _ => Err("tree-pack payload must be an object or array"@),
    }
}

fn strip_row(row: &JsonValue) -> (r: JsonValue)
    ensures
        r.jv() == strip_tree_id(row.jv()),
{
    match row {
        JsonValue::Object(fields) => {
            proof {
                crate::json::lemma_object_view(*fields);
            }
            let mut copy = copy_fields(fields);
            remove_field(&mut copy, "tree_id");
            object_of(copy)
        },
        _ => row.deep_copy(),
    }
}

fn stripped_rows(items: &Vec<JsonValue>) -> (r: Vec<JsonValue>)
    ensures
        items_view(r@) == items_view(items@).map_values(|row: JsonView| strip_tree_id(row)),
{
    let mut out: Vec<JsonValue> = Vec::new();
    let mut i: usize = 0;
    while i < items.len()
        invariant
            i <= items@.len(),
            out@.len() == i,
            forall|j: int| 0 <= j < i ==> (#[trigger] out@[j]).jv() == strip_tree_id(items@[j].jv()),
        decreases items@.len() - i,
    {
        let row = strip_row(&items[i]);
        out.push(row);
        i = i + 1;
    }
    assert(items_view(out@) =~= items_view(items@).map_values(|row: JsonView| strip_tree_id(row)));
    out
}

fn tree_payload_value(tree_id: String, rows: Vec<JsonValue>) -> (r: JsonValue)
    ensures
        r.jv() == tree_payload_view(tree_id@, items_view(rows@)),
{
    let ghost id = tree_id@;
    let ghost rv = items_view(rows@);
    let mut fields: Vec<JsonField> = Vec::new();
    fields.push(JsonField { key: owned("entries"), value: array_of(rows) });
    fields.push(JsonField { key: owned("tree_id"), value: JsonValue::String(tree_id) });
    assert(fields_view(fields@) =~= seq![("entries"@, JsonView::Array(rv)), ("tree_id"@, JsonView::Str(id))]);
    object_of(fields)
}

fn text_member_or(fields: &Vec<JsonField>, key: &str, default: String) -> (r: String)
    ensures
        r@ == text_or(fields_view(fields@), key@, default@),
{
    match get_field(fields, key) {
        Some(JsonValue::String(t)) => t.clone(),
        _ => default,
    }
}

fn entries_or_rows_member(fields: &Vec<JsonField>) -> (r: Option<&JsonValue>)
    ensures
        match r {
            Some(v) => entries_or_rows(fields_view(fields@)) == Some(v.jv()),
            None => entries_or_rows(fields_view(fields@)) is None,
        },
{
    match get_field(fields, "entries") {
        Some(v) => Some(v),
        None => get_field(fields, "rows"),
    }
}

/// Brings a stored tree payload to its normal form (see
/// `spec_normalize_tree_payload`); every refusal is a corruption error.
pub fn normalize_tree_payload(expected_tree_id: &str, payload: JsonValue) -> (r: StoreResult<JsonValue>)
    ensures
        match spec_normalize_tree_payload(expected_tree_id@, payload.jv()) {
            Ok(v) => r matches Ok(n) && n.jv() == v,
            Err(m) => r matches Err(e) && e.kind == BinaryDbErrorKind::Corruption && e.message@ == m,
        },
{
    match payload {
        JsonValue::Array(rows) => {
            proof {
                crate::json::lemma_array_view(rows);
            }
            Ok(tree_payload_value(owned(expected_tree_id), rows))
        },
        JsonValue::Object(fields) => {
            proof {
                crate::json::lemma_object_view(fields);
            }
            let tree_id = text_member_or(&fields, "tree_id", owned(expected_tree_id));
            let rows = match entries_or_rows_member(&fields) {
                Some(v) => v,
                None => {
                    return Err(corruption("tree-pack payload is missing rows"));
                },
            };
            match rows {
                JsonValue::Array(items) => {
                    proof {
                        crate::json::lemma_array_view(*items);
                    }
                    Ok(tree_payload_value(tree_id, stripped_rows(items)))
                },
                JsonValue::Object(nested) => {
                    proof {
                        crate::json::lemma_object_view(*nested);
                    }
                    let tree_id = text_member_or(nested, "tree_id", tree_id);
                    match entries_or_rows_member(nested) {
                        Some(JsonValue::Array(items)) => {
                            proof {
                                crate::json::lemma_array_view(*items);
                            }
                            Ok(tree_payload_value(tree_id, stripped_rows(items)))
                        },
                        _ => Err(corruption("nested tree-pack payload is missing rows")),
                    }
                },
                _ => Err(corruption("tree-pack rows must be an array or object")),
            }
        },
        _ => Err(corruption("tree-pack payload must be an object or array")),
    }
}

} // verus!
