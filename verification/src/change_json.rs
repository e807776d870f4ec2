//! Normalization of the Change payloads exchanged with the remote service:
//! change identifiers, change references, nested details, Task audits and
//! the linked-change lookup.

use vstd::prelude::*;

use crate::json::{
    array_of, copy_fields, copy_items, field_get, field_set, fields_view, get_field, items_view,
    object_of, set_field, view_get, JsonField, JsonNumber, JsonValue, JsonView,
};
use crate::text::{
    cat3, cat5, chars_of, normalize_optional_text, owned, push_str, spec_char_is_whitespace,
    spec_normalize_text, spec_trim, trim_end_len, trim_start_index,
    string_from_chars, trim_str,
};

verus! {

// ----- change identifiers ---------------------------------------------------

/// `C-` followed by at least one ASCII digit and nothing else.
pub open spec fn spec_is_short_change_id(s: Seq<char>) -> bool {
    &&& s.len() > 2
    &&& s[0] == 'C' && s[1] == '-'
    &&& forall|i: int| 2 <= i < s.len() ==> '0' <= #[trigger] s[i] <= '9'
}

pub fn is_short_change_id(value: &Vec<char>) -> (r: bool)
    ensures
        r == spec_is_short_change_id(value@),
{
    if value.len() <= 2 || value[0] != 'C' || value[1] != '-' {
        return false;
    }
    let mut i: usize = 2;
    while i < value.len()
        invariant
            2 <= i <= value@.len(),
            forall|j: int| 2 <= j < i ==> '0' <= #[trigger] value@[j] <= '9',
        decreases value@.len() - i,
    {
        if value[i] < '0' || value[i] > '9' {
            return false;
        }
        i = i + 1;
    }
    true
}

/// Position of the last `/`, or -1.
pub open spec fn last_slash(s: Seq<char>) -> int
    decreases s.len(),
{
    if s.len() == 0 {
        -1
    } else if s.last() == '/' {
        s.len() - 1
    } else {
        last_slash(s.drop_last())
    }
}

proof fn lemma_last_slash(s: Seq<char>)
    ensures
        -1 <= last_slash(s) < s.len(),
        last_slash(s) >= 0 ==> s[last_slash(s)] == '/',
    decreases s.len(),
{
    if s.len() > 0 && s.last() != '/' {
        lemma_last_slash(s.drop_last());
    }
}

fn find_last_slash(s: &Vec<char>) -> (r: Option<usize>)
    ensures
        r matches Some(k) ==> last_slash(s@) == k && k < s@.len(),
        r is None ==> last_slash(s@) == -1,
{
    let mut n = s.len();
    assert(s@.subrange(0, n as int) =~= s@);
    while n > 0
        invariant
            n <= s@.len(),
            last_slash(s@) == last_slash(s@.subrange(0, n as int)),
        decreases n,
    {
        let ghost prefix = s@.subrange(0, n as int);
        if s[n - 1] == '/' {
            assert(prefix.last() == '/');
            return Some(n - 1);
        }
        assert(prefix.drop_last() =~= s@.subrange(0, n - 1));
        n = n - 1;
    }
    None
}

fn subrange_chars(s: &Vec<char>, from: usize, to: usize) -> (r: Vec<char>)
    requires
        from <= to <= s@.len(),
    ensures
        r@ == s@.subrange(from as int, to as int),
{
    let mut out: Vec<char> = Vec::new();
    let mut i = from;
    while i < to
        invariant
            from <= i <= to <= s@.len(),
            out@ == s@.subrange(from as int, i as int),
        decreases to - i,
    {
        out.push(s[i]);
        i = i + 1;
        assert(out@ =~= s@.subrange(from as int, i as int));
    }
    out
}

/// The canonical form of a change id: trimmed, with a `task/C-n` reference
/// reduced to its short id `C-n`.
pub open spec fn spec_canonical_change_id(value: Seq<char>) -> Result<Seq<char>, Seq<char>> {
    match spec_normalize_text(value) {
        None => Err("change_id must not be empty."@),
        Some(v) => {
            let k = last_slash(v);
            if k >= 0 && spec_is_short_change_id(v.subrange(k + 1, v.len() as int)) {
                Ok(v.subrange(k + 1, v.len() as int))
            } else {
                Ok(v)
            }
        },
    }
}

proof fn lemma_no_slash(s: Seq<char>)
    requires
        forall|i: int| 0 <= i < s.len() ==> #[trigger] s[i] != '/',
    ensures
        last_slash(s) == -1,
    decreases s.len(),
{
    if s.len() > 0 {
        assert forall|i: int| 0 <= i < s.drop_last().len() implies #[trigger] s.drop_last()[i] != '/' by {
            assert(s.drop_last()[i] == s[i]);
        }
        lemma_no_slash(s.drop_last());
    }
}

/// A canonical change id is its own canonical form.
pub proof fn law_canonical_change_id_is_idempotent(value: Seq<char>)
    requires
        spec_canonical_change_id(value) is Ok,
    ensures
        spec_canonical_change_id(spec_canonical_change_id(value)->Ok_0) == spec_canonical_change_id(
            value,
        ),
{
    let v = spec_trim(value);
    crate::text::lemma_trim_result_ends(value);
    let k = last_slash(v);
    if k >= 0 && spec_is_short_change_id(v.subrange(k + 1, v.len() as int)) {
        let c = v.subrange(k + 1, v.len() as int);
        assert(c.last() == c[c.len() - 1]);
        assert('0' <= c[c.len() - 1] <= '9');
        crate::text::lemma_trim_noop(c);
        assert forall|i: int| 0 <= i < c.len() implies #[trigger] c[i] != '/' by {
            if i >= 2 {
                assert('0' <= c[i] <= '9');
            }
        }
        lemma_no_slash(c);
    } else {
        crate::text::lemma_trim_noop(v);
    }
}

proof fn lemma_last_slash_after(a: Seq<char>, c: Seq<char>)
    requires
        forall|i: int| 0 <= i < c.len() ==> #[trigger] c[i] != '/',
    ensures
        last_slash(a + "/"@ + c) == a.len(),
    decreases c.len(),
{
    let x = a + "/"@ + c;
    assert("/"@.len() == 1 && "/"@[0] == '/') by {
        reveal_strlit("/");
    }
    if c.len() == 0 {
        assert(x.last() == '/');
    } else {
        assert(x.last() == c.last());
        assert forall|i: int| 0 <= i < c.drop_last().len() implies #[trigger] c.drop_last()[i] != '/' by {
            assert(c.drop_last()[i] == c[i]);
        }
        assert(x.drop_last() =~= a + "/"@ + c.drop_last());
        lemma_last_slash_after(a, c.drop_last());
    }
}

/// Canonicalizing undoes what the server is sent for a short id: the
/// Task-qualified id of a short change id canonicalizes back to that short
/// id.
pub proof fn law_canonical_id_recovers_short_id(task_id: Seq<char>, change_id: Seq<char>)
    requires
        spec_rolling_server_change_id(Some(task_id), change_id) is Ok,
        spec_normalize_text(change_id) matches Some(c) && spec_is_short_change_id(c),
    ensures
        spec_canonical_change_id(spec_rolling_server_change_id(Some(task_id), change_id)->Ok_0)
            == Ok::<Seq<char>, Seq<char>>(spec_normalize_text(change_id)->0),
{
    let c = spec_normalize_text(change_id)->0;
    let t = spec_normalize_text(task_id)->0;
    let x = t + "/"@ + c;
    assert("/"@.len() == 1 && "/"@[0] == '/') by {
        reveal_strlit("/");
    }
    crate::text::lemma_trim_result_ends(task_id);
    crate::text::lemma_trim_result_ends(change_id);
    assert(x[0] == t[0]);
    assert(x.last() == c.last());
    crate::text::lemma_trim_noop(x);
    assert forall|i: int| 0 <= i < c.len() implies #[trigger] c[i] != '/' by {
        if i >= 2 {
            assert('0' <= c[i] <= '9');
        }
    }
    lemma_last_slash_after(t, c);
    assert(x.subrange(t.len() + 1int, x.len() as int) =~= c);
}

/// A short change id stays apart under different Tasks: the ids sent to the
/// server for the same short id under two Tasks whose trimmed ids differ
/// are different.
pub proof fn law_short_ids_stay_isolated_by_task(task_a: Seq<char>, task_b: Seq<char>, change_id: Seq<char>)
    requires
        spec_rolling_server_change_id(Some(task_a), change_id) is Ok,
        spec_rolling_server_change_id(Some(task_b), change_id) is Ok,
        spec_normalize_text(change_id) matches Some(c) && spec_is_short_change_id(c),
        spec_normalize_text(task_a) != spec_normalize_text(task_b),
    ensures
        spec_rolling_server_change_id(Some(task_a), change_id) != spec_rolling_server_change_id(
            Some(task_b),
            change_id,
        ),
{
    let c = spec_normalize_text(change_id)->0;
    let ta = spec_normalize_text(task_a)->0;
    let tb = spec_normalize_text(task_b)->0;
    let xa = ta + "/"@ + c;
    let xb = tb + "/"@ + c;
    assert("/"@.len() == 1) by {
        reveal_strlit("/");
    }
    assert(xa.len() == ta.len() + 1 + c.len());
    assert(xb.len() == tb.len() + 1 + c.len());
    if xa == xb {
        assert(xa.len() == xb.len());
        assert(ta.len() == tb.len());
        assert(xa.subrange(0, ta.len() as int) =~= ta);
        assert(xb.subrange(0, tb.len() as int) =~= tb);
        assert(ta == tb);
    }
}

fn canonical_change_id_text(value: &str) -> (r: Result<String, String>)
    ensures
        r matches Ok(s) ==> spec_canonical_change_id(value@) == Ok::<Seq<char>, Seq<char>>(s@),
        r matches Err(e) ==> spec_canonical_change_id(value@) == Err::<Seq<char>, Seq<char>>(e@),
{
    let v = trim_str(value);
    if v.len() == 0 {
        return Err(owned("change_id must not be empty."));
    }
    match find_last_slash(&v) {
        None => Ok(string_from_chars(&v)),
        Some(k) => {
            let child = subrange_chars(&v, k + 1, v.len());
            if is_short_change_id(&child) {
                Ok(string_from_chars(&child))
            } else {
                Ok(string_from_chars(&v))
            }
        },
    }
}

/// The Task-qualified id that the server resolves: a short id gets the
/// Task prefix, any other id is used as given (trimmed).
pub open spec fn spec_rolling_server_change_id(task_id: Option<Seq<char>>, change_id: Seq<char>) -> Result<
    Seq<char>,
    Seq<char>,
> {
    match spec_normalize_text(change_id) {
        None => Err("change_id must not be empty."@),
        Some(c) => if !spec_is_short_change_id(c) {
            Ok(c)
        } else {
            match (match task_id {
                Some(t) => spec_normalize_text(t),
                None => None,
            }) {
                None => Err("Task context is required to resolve short change_id `"@ + c
                    + "`; refusing an ambiguous repository-wide lookup."@),
                Some(t) => Ok(t + "/"@ + c),
            }
        },
    }
}

// ----- payload helpers ------------------------------------------------------

/// The text of the member `key`, when it is a string.
pub open spec fn str_member(fields: Seq<(Seq<char>, JsonView)>, key: Seq<char>) -> Option<Seq<char>> {
    match field_get(fields, key) {
        Some(JsonView::Str(s)) => Some(s),
        _ => None,
    }
}

/// The normalized text of the member `key`, when it is a non-blank string.
pub open spec fn text_member(fields: Seq<(Seq<char>, JsonView)>, key: Seq<char>) -> Option<Seq<char>> {
    match str_member(fields, key) {
        Some(s) => spec_normalize_text(s),
        None => None,
    }
}

pub open spec fn object_error(field_name: Seq<char>) -> Seq<char> {
    "`"@ + field_name + "` must be an object."@
}

fn require_object<'a>(value: &'a JsonValue, field_name: &str) -> (r: Result<&'a Vec<JsonField>, String>)
    ensures
        r matches Ok(f) ==> value.jv() == JsonView::Object(fields_view(f@)),
        r is Err ==> !(value.jv() is Object),
        r matches Err(e) ==> e@ == object_error(field_name@),
{
    match value {
        JsonValue::Object(fields) => {
            proof {
                crate::json::lemma_object_view(*fields);
            }
            Ok(fields)
        },
        _ => Err(cat3("`", field_name, "` must be an object.")),
    }
}

fn str_member_of<'a>(fields: &'a Vec<JsonField>, key: &str) -> (r: Option<&'a String>)
    ensures
        r matches Some(s) ==> str_member(fields_view(fields@), key@) == Some(s@),
        r is None ==> str_member(fields_view(fields@), key@) is None,
{
    match get_field(fields, key) {
        Some(v) => match v {
            JsonValue::String(s) => Some(s),
            _ => None,
        },
        None => None,
    }
}

fn text_member_of(fields: &Vec<JsonField>, key: &str) -> (r: Option<String>)
    ensures
        r matches Some(s) ==> text_member(fields_view(fields@), key@) == Some(s@),
        r is None ==> text_member(fields_view(fields@), key@) is None,
{
    match str_member_of(fields, key) {
        Some(s) => normalize_optional_text(Some(s.as_str())),
        None => None,
    }
}

// ----- the Change payload ---------------------------------------------------

/// The normalized remote Change payload: its Task (the expected one, or its
/// own) must agree with the expected Task and with the prefix of a
/// Task-qualified change id; the change id becomes canonical and
/// `change_ref` is derived (`task/C-n` for a short id, else the given
/// reference or the raw id) and must agree with a given reference.
pub open spec fn spec_normalize_change(payload: JsonView, expected: Option<Seq<char>>) -> Result<
    JsonView,
    Seq<char>,
> {
    match payload {
        JsonView::Object(obj) => {
            let exp = match expected {
                Some(e) => spec_normalize_text(e),
                None => None,
            };
            let own = text_member(obj, "task_id"@);
            if exp is Some && own is Some && exp->0 != own->0 {
                Err("Remote Change belongs to task `"@ + own->0 + "`, not expected task `"@ + exp->0
                    + "`."@)
            } else {
                let task = if exp is Some {
                    exp
                } else {
                    own
                };
                match str_member(obj, "change_id"@) {
                    None => Err("Remote Change payload is missing change_id."@),
                    Some(raw) => {
                        let k = last_slash(raw);
                        let prefix = raw.subrange(0, k);
                        if task is Some && k >= 0 && spec_is_short_change_id(
                            raw.subrange(k + 1, raw.len() as int),
                        ) && prefix != task->0 {
                            Err("Remote Change id `"@ + raw + "` belongs to task `"@ + prefix
                                + "`, not `"@ + task->0 + "`."@)
                        } else {
                            match spec_canonical_change_id(raw) {
                                Err(e) => Err(e),
                                Ok(canonical) => {
                                    let provided = text_member(obj, "change_ref"@);
                                    if spec_is_short_change_id(canonical) && task is None {
                                        Err("Remote Change `"@ + canonical
                                            + "` is missing task_id required to derive change_ref."@)
                                    } else {
                                        let change_ref = if spec_is_short_change_id(canonical) {
                                            task->0 + "/"@ + canonical
                                        } else if provided is Some {
                                            provided->0
                                        } else {
                                            raw
                                        };
                                        if provided is Some && provided->0 != change_ref {
                                            Err("Remote Change change_ref `"@ + provided->0
                                                + "` does not match derived `"@ + change_ref + "`."@)
                                        } else {
                                            Ok(
                                                JsonView::Object(
                                                    field_set(
                                                        field_set(
                                                            obj,
                                                            "change_id"@,
                                                            JsonView::Str(canonical),
                                                        ),
                                                        "change_ref"@,
                                                        JsonView::Str(change_ref),
                                                    ),
                                                ),
                                            )
                                        }
                                    }
                                },
                            }
                        }
                    },
                }
            }
        },
        _ => Err(object_error("remote Change payload"@)),
    }
}

proof fn lemma_last_slash_skips_suffix(a: Seq<char>, b: Seq<char>)
    requires
        forall|i: int| 0 <= i < b.len() ==> #[trigger] b[i] != '/',
    ensures
        last_slash(a + b) == last_slash(a),
    decreases b.len(),
{
    if b.len() > 0 {
        assert((a + b).last() == b.last());
        assert((a + b).drop_last() =~= a + b.drop_last());
        lemma_last_slash_skips_suffix(a, b.drop_last());
    } else {
        assert(a + b =~= a);
    }
}

/// A Task-qualified change id stays with its Task: when a remote Change
/// whose `change_id` is `P/C-n` normalizes, `P` is the Change's Task (the
/// expected Task when one is given, else the payload's own `task_id`).
pub proof fn law_qualified_change_ids_belong_to_the_payload_task(
    fields: Seq<(Seq<char>, JsonView)>,
    expected: Option<Seq<char>>,
    prefix: Seq<char>,
    child: Seq<char>,
)
    requires
        str_member(fields, "change_id"@) == Some(prefix + "/"@ + child),
        spec_is_short_change_id(child),
        spec_normalize_change(JsonView::Object(fields), expected) is Ok,
    ensures
        (match expected {
            Some(e) => match spec_normalize_text(e) {
                Some(t) => Some(t),
                None => text_member(fields, "task_id"@),
            },
            None => text_member(fields, "task_id"@),
        }) == Some(prefix),
{
    let raw = prefix + "/"@ + child;
    reveal_strlit("/");
    assert forall|i: int| 0 <= i < child.len() implies #[trigger] child[i] != '/' by {
        if i >= 2 {
            assert('0' <= child[i] <= '9');
        }
    }
    lemma_last_slash_skips_suffix(prefix + "/"@, child);
    assert((prefix + "/"@).last() == '/');
    assert(last_slash(prefix + "/"@) == prefix.len());
    assert(raw.subrange(0, prefix.len() as int) =~= prefix);
    assert(raw.subrange(prefix.len() as int + 1, raw.len() as int) =~= child);
    let own = text_member(fields, "task_id"@);
    let exp = match expected {
        Some(e) => spec_normalize_text(e),
        None => None,
    };
    let task = if exp is Some {
        exp
    } else {
        own
    };
    if task is None {
        let plen = prefix.len() as int;
        assert(raw.last() == child.last());
        assert('0' <= child.last() <= '9');
        assert(trim_end_len(raw) == raw.len());
        assert(raw.subrange(0, raw.len() as int) =~= raw);
        crate::text::lemma_trim_start_bounds(raw);
        let st = trim_start_index(raw);
        assert(raw[plen] == '/');
        assert(st <= plen) by {
            if st > plen {
                assert(spec_char_is_whitespace(raw[plen]));
            }
        }
        let head = raw.subrange(st, plen) + "/"@;
        let v = spec_trim(raw);
        assert(v =~= head + child);
        lemma_last_slash_skips_suffix(head, child);
        assert(head.last() == '/');
        assert(last_slash(head) == head.len() - 1);
        assert(v.subrange(head.len() as int, v.len() as int) =~= child);
        assert(spec_canonical_change_id(raw) == Ok::<Seq<char>, Seq<char>>(child));
    }
}

/// A detail payload either is a Change itself (it has `change_id`) or
/// carries one under `change`, which is normalized in place.
pub open spec fn spec_normalize_detail(payload: JsonView, expected: Option<Seq<char>>) -> Result<
    JsonView,
    Seq<char>,
> {
    match payload {
        JsonView::Object(obj) => if field_get(obj, "change_id"@) is Some {
            spec_normalize_change(payload, expected)
        } else {
            match field_get(obj, "change"@) {
                None => Err(
                    "Remote Change detail payload is missing both change_id and nested change."@,
                ),
                Some(change) => match spec_normalize_change(change, expected) {
                    Err(e) => Err(e),
                    Ok(n) => Ok(JsonView::Object(field_set(obj, "change"@, n))),
                },
            }
        },
        _ => Err(object_error("remote Change detail payload"@)),
    }
}

/// Each item normalized as a detail under the Task; the first failure wins.
pub open spec fn spec_normalize_details(items: Seq<JsonView>, task: Seq<char>) -> Result<
    Seq<JsonView>,
    Seq<char>,
>
    decreases items.len(),
{
    if items.len() == 0 {
        Ok(Seq::empty())
    } else {
        match spec_normalize_details(items.drop_last(), task) {
            Err(e) => Err(e),
            Ok(prev) => match spec_normalize_detail(items.last(), Some(task)) {
                Err(e) => Err(e),
                Ok(v) => Ok(prev.push(v)),
            },
        }
    }
}

proof fn lemma_details_error_extends(items: Seq<JsonView>, task: Seq<char>, k: int, e: Seq<char>)
    requires
        0 <= k <= items.len(),
        spec_normalize_details(items.subrange(0, k), task) == Err::<Seq<JsonView>, Seq<char>>(e),
    ensures
        spec_normalize_details(items, task) == Err::<Seq<JsonView>, Seq<char>>(e),
    decreases items.len() - k,
{
    if k == items.len() {
        assert(items.subrange(0, k) =~= items);
    } else {
        let next = items.subrange(0, k + 1);
        assert(next.drop_last() =~= items.subrange(0, k));
        lemma_details_error_extends(items, task, k + 1, e);
    }
}

/// A Task audit: it must belong to the expected Task, and each of its
/// changes is normalized as a detail in that Task's context.
pub open spec fn spec_normalize_task_audit(payload: JsonView, expected_task_id: Seq<char>) -> Result<
    JsonView,
    Seq<char>,
> {
    match spec_normalize_text(expected_task_id) {
        None => Err("Task audit task_id must not be empty."@),
        Some(expected) => match payload {
            JsonView::Object(obj) => {
                let own = text_member(obj, "task_id"@);
                if own is Some && own->0 != expected {
                    Err("Remote Task audit belongs to task `"@ + own->0
                        + "`, not expected task `"@ + expected + "`."@)
                } else {
                    match field_get(obj, "changes"@) {
                        None => Ok(payload),
                        Some(JsonView::Array(items)) => match spec_normalize_details(items, expected) {
                            Err(e) => Err(e),
                            Ok(normalized) => Ok(
                                JsonView::Object(field_set(obj, "changes"@, JsonView::Array(normalized))),
                            ),
                        },
                        Some(_) => Err("Remote Task audit changes must be an array."@),
                    }
                }
            },
            _ => Err(object_error("remote Task audit payload"@)),
        },
    }
}

/// The view of an exec result.
pub open spec fn result_view(r: Result<JsonValue, String>) -> Result<JsonView, Seq<char>> {
    match r {
        Ok(v) => Ok(v.jv()),
        Err(e) => Err(e@),
    }
}

pub open spec fn text_result_view(r: Result<String, String>) -> Result<Seq<char>, Seq<char>> {
    match r {
        Ok(v) => Ok(v@),
        Err(e) => Err(e@),
    }
}

pub open spec fn opt_view(v: Option<&str>) -> Option<Seq<char>> {
    match v {
        Some(s) => Some(s@),
        None => None,
    }
}

/// Change payload normalization over a store of the caller's choice.
pub struct ChangeJson<S> {
    store: S,
}

impl ChangeJson<()> {
    pub fn stateless() -> (r: Self) {
        Self::new(())
    }
}

impl<S> ChangeJson<S> {
    /// The store this value works over.
    pub closed spec fn held_store(&self) -> S {
        self.store
    }

    pub fn new(store: S) -> (r: Self)
        ensures
            r.held_store() == store,
    {
        ChangeJson { store }
    }

    pub fn canonical_change_id(&self, value: &str) -> (r: Result<String, String>)
        ensures
            text_result_view(r) == spec_canonical_change_id(value@),
    {
        canonical_change_id_text(value)
    }

    pub fn rolling_server_change_id(&self, task_id: Option<&str>, change_id: &str) -> (r: Result<
        String,
        String,
    >)
        ensures
            text_result_view(r) == spec_rolling_server_change_id(opt_view(task_id), change_id@),
    {
        let change_id = match normalize_optional_text(Some(change_id)) {
            Some(c) => c,
            None => return Err(owned("change_id must not be empty.")),
        };
        let chars = chars_of(change_id.as_str());
        if !is_short_change_id(&chars) {
            return Ok(change_id);
        }
        match normalize_optional_text(task_id) {
            None => Err(
                cat3(
                    "Task context is required to resolve short change_id `",
                    change_id.as_str(),
                    "`; refusing an ambiguous repository-wide lookup.",
                ),
            ),
            Some(task) => Ok(cat3(task.as_str(), "/", change_id.as_str())),
        }
    }

    pub fn normalize_remote_change_payload(
        &self,
        payload: &JsonValue,
        expected_task_id: Option<&str>,
    ) -> (r: Result<JsonValue, String>)
        ensures
            result_view(r) == spec_normalize_change(payload.jv(), opt_view(expected_task_id)),
    {
        let fields = require_object(payload, "remote Change payload")?;
        let ghost obj = fields_view(fields@);
        let expected = normalize_optional_text(expected_task_id);
        let own = text_member_of(fields, "task_id");
        match (&expected, &own) {
            (Some(e), Some(o)) => {
                if !crate::text::str_eq(e.as_str(), o.as_str()) {
                    return Err(
                        cat5(
                            "Remote Change belongs to task `",
                            o.as_str(),
                            "`, not expected task `",
                            e.as_str(),
                            "`.",
                        ),
                    );
                }
            },
            _ => {},
        }
        let task: Option<String> = match expected {
            Some(e) => Some(e),
            None => own,
        };
        let raw = match str_member_of(fields, "change_id") {
            Some(raw) => raw,
            None => return Err(owned("Remote Change payload is missing change_id.")),
        };
        let raw_chars = chars_of(raw.as_str());
        let slash = find_last_slash(&raw_chars);
        match (&task, slash) {
            (Some(t), Some(k)) => {
                assert(k < raw_chars.len());
                let child = subrange_chars(&raw_chars, k + 1, raw_chars.len());
                let prefix = subrange_chars(&raw_chars, 0, k);
                let t_chars = chars_of(t.as_str());
                if is_short_change_id(&child) && !crate::text::chars_eq(&prefix, &t_chars) {
                    let mut m = chars_of("Remote Change id `");
                    push_str(&mut m, raw.as_str());
                    push_str(&mut m, "` belongs to task `");
                    crate::text::push_all(&mut m, &prefix);
                    push_str(&mut m, "`, not `");
                    push_str(&mut m, t.as_str());
                    push_str(&mut m, "`.");
                    return Err(string_from_chars(&m));
                }
            },
            _ => {},
        }
        let canonical = canonical_change_id_text(raw.as_str())?;
        let provided = text_member_of(fields, "change_ref");
        let canonical_chars = chars_of(canonical.as_str());
        let change_ref: String = if is_short_change_id(&canonical_chars) {
            match &task {
                None => {
                    return Err(
                        cat3(
                            "Remote Change `",
                            canonical.as_str(),
                            "` is missing task_id required to derive change_ref.",
                        ),
                    );
                },
                Some(t) => cat3(t.as_str(), "/", canonical.as_str()),
            }
        } else {
            match &provided {
                Some(p) => p.clone(),
                None => raw.clone(),
            }
        };
        match &provided {
            Some(p) => {
                if !crate::text::str_eq(p.as_str(), change_ref.as_str()) {
                    return Err(
                        cat5(
                            "Remote Change change_ref `",
                            p.as_str(),
                            "` does not match derived `",
                            change_ref.as_str(),
                            "`.",
                        ),
                    );
                }
            },
            None => {},
        }
        let mut out = copy_fields(fields);
        set_field(&mut out, owned("change_id"), JsonValue::String(canonical));
        set_field(&mut out, owned("change_ref"), JsonValue::String(change_ref));
        Ok(object_of(out))
    }

    pub fn normalize_remote_change_detail_payload(
        &self,
        payload: &JsonValue,
        expected_task_id: Option<&str>,
    ) -> (r: Result<JsonValue, String>)
        ensures
            result_view(r) == spec_normalize_detail(payload.jv(), opt_view(expected_task_id)),
    {
        let fields = require_object(payload, "remote Change detail payload")?;
        if get_field(fields, "change_id").is_some() {
            return self.normalize_remote_change_payload(payload, expected_task_id);
        }
        let change = match get_field(fields, "change") {
            Some(change) => change,
            None => {
                return Err(
                    owned("Remote Change detail payload is missing both change_id and nested change."),
                );
            },
        };
        let normalized = self.normalize_remote_change_payload(change, expected_task_id)?;
        let mut out = copy_fields(fields);
        set_field(&mut out, owned("change"), normalized);
        Ok(object_of(out))
    }

    pub fn normalize_remote_task_audit_payload(
        &self,
        payload: &JsonValue,
        expected_task_id: &str,
    ) -> (r: Result<JsonValue, String>)
        ensures
            result_view(r) == spec_normalize_task_audit(payload.jv(), expected_task_id@),
    {
        let expected = match normalize_optional_text(Some(expected_task_id)) {
            Some(e) => e,
            None => return Err(owned("Task audit task_id must not be empty.")),
        };
        let fields = require_object(payload, "remote Task audit payload")?;
        match text_member_of(fields, "task_id") {
            Some(own) => {
                if !crate::text::str_eq(own.as_str(), expected.as_str()) {
                    return Err(
                        cat5(
                            "Remote Task audit belongs to task `",
                            own.as_str(),
                            "`, not expected task `",
                            expected.as_str(),
                            "`.",
                        ),
                    );
                }
            },
            None => {},
        }
        let changes = match get_field(fields, "changes") {
            None => return Ok(payload.deep_copy()),
            Some(changes) => changes,
        };
        let items = match changes {
            JsonValue::Array(items) => items,
            _ => return Err(owned("Remote Task audit changes must be an array.")),
        };
        proof {
            crate::json::lemma_array_view(*items);
        }
        let ghost iv = items_view(items@);
        let mut normalized: Vec<JsonValue> = Vec::new();
        let mut i: usize = 0;
        assert(iv.subrange(0, 0) =~= Seq::<JsonView>::empty());
        assert(items_view(normalized@) =~= Seq::<JsonView>::empty());
        while i < items.len()
            invariant
                iv == items_view(items@),
                i <= items@.len(),
                payload.jv() == JsonView::Object(fields_view(fields@)),
                field_get(fields_view(fields@), "changes"@) == Some(JsonView::Array(iv)),
                spec_normalize_text(expected_task_id@) == Some(expected@),
                text_member(fields_view(fields@), "task_id"@) is Some ==> text_member(
                    fields_view(fields@),
                    "task_id"@,
                )->0 == expected@,
                spec_normalize_details(iv.subrange(0, i as int), expected@) == Ok::<
                    Seq<JsonView>,
                    Seq<char>,
                >(items_view(normalized@)),
            decreases items@.len() - i,
        {
            let ghost prefix = iv.subrange(0, i + 1);
            assert(prefix.drop_last() =~= iv.subrange(0, i as int));
            assert(prefix.last() == items@[i as int].jv());
            let item = match self.normalize_remote_change_detail_payload(
                &items[i],
                Some(expected.as_str()),
            ) {
                Ok(item) => item,
                Err(e) => {
                    proof {
                        lemma_details_error_extends(iv, expected@, i + 1, e@);
                    }
                    return Err(e);
                },
            };
            let ghost before = normalized@;
            normalized.push(item);
            assert(items_view(normalized@) =~= items_view(before).push(normalized@.last().jv()));
            i = i + 1;
        }
        assert(iv.subrange(0, iv.len() as int) =~= iv);
        let mut out = copy_fields(fields);
        set_field(&mut out, owned("changes"), array_of(normalized));
        Ok(object_of(out))
    }
}

// ----- the linked-change lookup ---------------------------------------------

/// A list field: absent or null gives no items; anything but an array fails.
pub open spec fn spec_normalize_array(value: Option<JsonView>, field_name: Seq<char>) -> Result<
    Seq<JsonView>,
    Seq<char>,
> {
    match value {
        None => Ok(Seq::empty()),
        Some(JsonView::Null) => Ok(Seq::empty()),
        Some(JsonView::Array(items)) => Ok(items),
        Some(_) => Err("`"@ + field_name + "` must be an array when provided."@),
    }
}

/// Every item of the list is an object.
pub open spec fn all_objects(items: Seq<JsonView>) -> bool {
    forall|i: int| 0 <= i < items.len() ==> (#[trigger] items[i]) is Object
}

/// A required text field, trimmed and non-empty.
pub open spec fn spec_require_text(value: Option<JsonView>, field_name: Seq<char>) -> Result<
    Seq<char>,
    Seq<char>,
> {
    match value {
        Some(JsonView::Str(t)) => if spec_trim(t).len() == 0 {
            Err("`"@ + field_name + "` must be non-empty."@)
        } else {
            Ok(spec_trim(t))
        },
        _ => Err("`"@ + field_name + "` must be a string."@),
    }
}

/// One Task's row of linked changes: its Task id and its change objects.
pub open spec fn spec_link_row(row: JsonView) -> Result<JsonView, Seq<char>> {
    match row {
        JsonView::Object(obj) => match spec_require_text(field_get(obj, "task_id"@), "task_id"@) {
            Err(e) => Err(e),
            Ok(task_id) => match spec_normalize_array(field_get(obj, "changes"@), "changes"@) {
                Err(e) => Err(e),
                Ok(changes) => if !all_objects(changes) {
                    Err(object_error("changes"@))
                } else {
                    Ok(
                        JsonView::Object(
                            seq![
                                ("task_id"@, JsonView::Str(task_id)),
                                ("changes"@, JsonView::Array(changes)),
                            ],
                        ),
                    )
                },
            },
        },
        _ => Err(object_error("change_links_by_task row"@)),
    }
}

/// Every row normalized in order; the first failure wins.
pub open spec fn spec_link_rows(rows: Seq<JsonView>) -> Result<Seq<JsonView>, Seq<char>>
    decreases rows.len(),
{
    if rows.len() == 0 {
        Ok(Seq::empty())
    } else {
        match spec_link_rows(rows.drop_last()) {
            Err(e) => Err(e),
            Ok(prev) => match spec_link_row(rows.last()) {
                Err(e) => Err(e),
                Ok(v) => Ok(prev.push(v)),
            },
        }
    }
}

/// Number of changes in normalized rows.
pub open spec fn changes_total(rows: Seq<JsonView>) -> int
    decreases rows.len(),
{
    if rows.len() == 0 {
        0
    } else {
        changes_total(rows.drop_last()) + match view_member(rows.last(), "changes"@) {
            Some(JsonView::Array(items)) => items.len() as int,
            _ => 0,
        }
    }
}

pub open spec fn view_member(v: JsonView, key: Seq<char>) -> Option<JsonView> {
    match v {
        JsonView::Object(f) => field_get(f, key),
        _ => None,
    }
}

/// A count field: a non-negative integer that fits in `i64`.
pub open spec fn spec_require_count(value: Option<JsonView>, field_name: Seq<char>) -> Result<
    i64,
    Seq<char>,
> {
    match value {
        Some(JsonView::Int(i)) => if i < 0 {
            Err("`"@ + field_name + "` must be non-negative."@)
        } else {
            Ok(i)
        },
        _ => Err("`"@ + field_name + "` must be an integer."@),
    }
}

/// The linked-change lookup: normalized rows and the change count, which is
/// the given one or the number of changes in the rows (capped at
/// `i64::MAX`).
pub open spec fn spec_linked_change_lookup(payload: JsonView) -> Result<JsonView, Seq<char>> {
    match payload {
        JsonView::Object(obj) => match spec_normalize_array(
            field_get(obj, "change_links_by_task"@),
            "change_links_by_task"@,
        ) {
            Err(e) => Err(e),
            Ok(raw_rows) => match spec_link_rows(raw_rows) {
                Err(e) => Err(e),
                Ok(rows) => {
                    let count: Result<i64, Seq<char>> = match field_get(obj, "linked_change_count"@) {
                        Some(v) => spec_require_count(Some(v), "linked_change_count"@),
                        None => Ok(
                            if changes_total(rows) > i64::MAX {
                                i64::MAX
                            } else {
                                changes_total(rows) as i64
                            },
                        ),
                    };
                    match count {
                        Err(e) => Err(e),
                        Ok(n) => Ok(
                            JsonView::Object(
                                seq![
                                    ("change_links_by_task"@, JsonView::Array(rows)),
                                    ("linked_change_count"@, JsonView::Int(n)),
                                ],
                            ),
                        ),
                    }
                },
            },
        },
        _ => Err(object_error("linked change lookup payload"@)),
    }
}

fn normalize_array_field(value: Option<&JsonValue>, field_name: &str) -> (r: Result<Vec<JsonValue>, String>)
    ensures
        match r {
            Ok(items) => spec_normalize_array(opt_json_view(value), field_name@) == Ok::<
                Seq<JsonView>,
                Seq<char>,
            >(items_view(items@)),
            Err(e) => spec_normalize_array(opt_json_view(value), field_name@) == Err::<
                Seq<JsonView>,
                Seq<char>,
            >(e@),
        },
{
    match value {
        None => {
            let v: Vec<JsonValue> = Vec::new();
            assert(items_view(v@) =~= Seq::<JsonView>::empty());
            Ok(v)
        },
        Some(JsonValue::Null) => {
            let v: Vec<JsonValue> = Vec::new();
            assert(items_view(v@) =~= Seq::<JsonView>::empty());
            Ok(v)
        },
        Some(JsonValue::Array(items)) => {
            proof {
                crate::json::lemma_array_view(*items);
            }
            Ok(copy_items(items))
        },
        Some(_) => Err(cat3("`", field_name, "` must be an array when provided.")),
    }
}

pub open spec fn opt_json_view(v: Option<&JsonValue>) -> Option<JsonView> {
    match v {
        Some(x) => Some(x.jv()),
        None => None,
    }
}

fn require_text_field(value: Option<&JsonValue>, field_name: &str) -> (r: Result<String, String>)
    ensures
        text_result_view(r) == spec_require_text(opt_json_view(value), field_name@),
{
    match value {
        Some(JsonValue::String(text)) => {
            let t = trim_str(text.as_str());
            if t.len() == 0 {
                Err(cat3("`", field_name, "` must be non-empty."))
            } else {
                Ok(string_from_chars(&t))
            }
        },
        _ => Err(cat3("`", field_name, "` must be a string.")),
    }
}

fn link_row(row: &JsonValue) -> (r: Result<JsonValue, String>)
    ensures
        result_view(r) == spec_link_row(row.jv()),
{
    let fields = require_object(row, "change_links_by_task row")?;
    let task_id = require_text_field(get_field(fields, "task_id"), "task_id")?;
    let changes = normalize_array_field(get_field(fields, "changes"), "changes")?;
    let ghost cv = items_view(changes@);
    let mut i: usize = 0;
    while i < changes.len()
        invariant
            cv == items_view(changes@),
            row.jv() == JsonView::Object(fields_view(fields@)),
            spec_require_text(field_get(fields_view(fields@), "task_id"@), "task_id"@) == Ok::<
                Seq<char>,
                Seq<char>,
            >(task_id@),
            spec_normalize_array(field_get(fields_view(fields@), "changes"@), "changes"@) == Ok::<
                Seq<JsonView>,
                Seq<char>,
            >(cv),
            i <= changes@.len(),
            forall|j: int| 0 <= j < i ==> (#[trigger] cv[j]) is Object,
        decreases changes@.len() - i,
    {
        match &changes[i] {
            JsonValue::Object(_) => {},
            _ => {
                assert(!(cv[i as int] is Object));
                return Err(cat3("`", "changes", "` must be an object."));
            },
        }
        i = i + 1;
    }
    let mut out: Vec<JsonField> = Vec::new();
    let ghost tv = task_id@;
    out.push(JsonField { key: owned("task_id"), value: JsonValue::String(task_id) });
    out.push(JsonField { key: owned("changes"), value: array_of(changes) });
    assert(fields_view(out@) =~= seq![
        ("task_id"@, JsonView::Str(tv)),
        ("changes"@, JsonView::Array(cv)),
    ]);
    Ok(object_of(out))
}

proof fn lemma_link_rows_error_extends(rows: Seq<JsonView>, k: int, e: Seq<char>)
    requires
        0 <= k <= rows.len(),
        spec_link_rows(rows.subrange(0, k)) == Err::<Seq<JsonView>, Seq<char>>(e),
    ensures
        spec_link_rows(rows) == Err::<Seq<JsonView>, Seq<char>>(e),
    decreases rows.len() - k,
{
    if k == rows.len() {
        assert(rows.subrange(0, k) =~= rows);
    } else {
        let next = rows.subrange(0, k + 1);
        assert(next.drop_last() =~= rows.subrange(0, k));
        lemma_link_rows_error_extends(rows, k + 1, e);
    }
}

fn link_rows(rows: &Vec<JsonValue>) -> (r: Result<Vec<JsonValue>, String>)
    ensures
        match r {
            Ok(out) => spec_link_rows(items_view(rows@)) == Ok::<Seq<JsonView>, Seq<char>>(
                items_view(out@),
            ),
            Err(e) => spec_link_rows(items_view(rows@)) == Err::<Seq<JsonView>, Seq<char>>(e@),
        },
{
    let ghost rv = items_view(rows@);
    let mut out: Vec<JsonValue> = Vec::new();
    let mut i: usize = 0;
    assert(rv.subrange(0, 0) =~= Seq::<JsonView>::empty());
    assert(items_view(out@) =~= Seq::<JsonView>::empty());
    while i < rows.len()
        invariant
            rv == items_view(rows@),
            i <= rows@.len(),
            spec_link_rows(rv.subrange(0, i as int)) == Ok::<Seq<JsonView>, Seq<char>>(
                items_view(out@),
            ),
        decreases rows@.len() - i,
    {
        let ghost prefix = rv.subrange(0, i + 1);
        assert(prefix.drop_last() =~= rv.subrange(0, i as int));
        assert(prefix.last() == rows@[i as int].jv());
        let row = match link_row(&rows[i]) {
            Ok(row) => row,
            Err(e) => {
                proof {
                    lemma_link_rows_error_extends(rv, i + 1, e@);
                }
                return Err(e);
            },
        };
        let ghost before = out@;
        out.push(row);
        assert(items_view(out@) =~= items_view(before).push(out@.last().jv()));
        i = i + 1;
    }
    assert(rv.subrange(0, rv.len() as int) =~= rv);
    Ok(out)
}

fn require_count(value: &JsonValue, field_name: &str) -> (r: Result<i64, String>)
    ensures
        match r {
            Ok(n) => spec_require_count(Some(value.jv()), field_name@) == Ok::<i64, Seq<char>>(n),
            Err(e) => spec_require_count(Some(value.jv()), field_name@) == Err::<i64, Seq<char>>(e@),
        },
{
    match value {
        JsonValue::Number(JsonNumber::Int(i)) => {
            if *i < 0 {
                Err(cat3("`", field_name, "` must be non-negative."))
            } else {
                Ok(*i)
            }
        },
        _ => Err(cat3("`", field_name, "` must be an integer.")),
    }
}

fn count_changes(rows: &Vec<JsonValue>) -> (n: i64)
    ensures
        n == (if changes_total(items_view(rows@)) > i64::MAX {
            i64::MAX as int
        } else {
            changes_total(items_view(rows@))
        }),
{
    let ghost rv = items_view(rows@);
    let mut n: i64 = 0;
    let mut i: usize = 0;
    assert(rv.subrange(0, 0) =~= Seq::<JsonView>::empty());
    while i < rows.len()
        invariant
            rv == items_view(rows@),
            i <= rows@.len(),
            0 <= n,
            n == (if changes_total(rv.subrange(0, i as int)) > i64::MAX {
                i64::MAX as int
            } else {
                changes_total(rv.subrange(0, i as int))
            }),
        decreases rows@.len() - i,
    {
        let ghost prefix = rv.subrange(0, i + 1);
        assert(prefix.drop_last() =~= rv.subrange(0, i as int));
        assert(prefix.last() == rows@[i as int].jv());
        proof {
            assert(changes_total(prefix.drop_last()) >= 0) by {
                lemma_changes_total_nonneg(prefix.drop_last());
            }
        }
        let len: usize = match &rows[i] {
            JsonValue::Object(fields) => {
                proof {
                    crate::json::lemma_object_view(*fields);
                }
                match get_field(fields, "changes") {
                    Some(JsonValue::Array(items)) => {
                        proof {
                            crate::json::lemma_array_view(*items);
                        }
                        items.len()
                    },
                    _ => 0,
                }
            },
            _ => 0,
        };
        if len as u64 > (i64::MAX - n) as u64 {
            n = i64::MAX;
        } else {
            n = n + len as i64;
        }
        i = i + 1;
    }
    assert(rv.subrange(0, rv.len() as int) =~= rv);
    n
}

proof fn lemma_changes_total_nonneg(rows: Seq<JsonView>)
    ensures
        changes_total(rows) >= 0,
    decreases rows.len(),
{
    if rows.len() > 0 {
        lemma_changes_total_nonneg(rows.drop_last());
    }
}

impl<S> ChangeJson<S> {
    pub fn normalize_linked_change_lookup_payload(&self, payload: &JsonValue) -> (r: Result<
        JsonValue,
        String,
    >)
        ensures
            result_view(r) == spec_linked_change_lookup(payload.jv()),
    {
        let fields = require_object(payload, "linked change lookup payload")?;
        let raw_rows = normalize_array_field(
            get_field(fields, "change_links_by_task"),
            "change_links_by_task",
        )?;
        let rows = link_rows(&raw_rows)?;
        let count = match get_field(fields, "linked_change_count") {
            Some(value) => require_count(value, "linked_change_count")?,
            None => count_changes(&rows),
        };
        let ghost rows_view = items_view(rows@);
        let mut out: Vec<JsonField> = Vec::new();
        out.push(JsonField { key: owned("change_links_by_task"), value: array_of(rows) });
        out.push(
            JsonField { key: owned("linked_change_count"), value: JsonValue::Number(JsonNumber::Int(count)) },
        );
        assert(fields_view(out@) =~= seq![
            ("change_links_by_task"@, JsonView::Array(rows_view)),
            ("linked_change_count"@, JsonView::Int(count)),
        ]);
        Ok(object_of(out))
    }

    pub fn build_linked_change_lookup_payload(&self, change_links_by_task_rows: Option<&JsonValue>) -> (r:
        Result<JsonValue, String>)
        ensures
            result_view(r) == spec_linked_change_lookup(
                JsonView::Object(
                    seq![
                        (
                            "change_links_by_task"@,
                            match change_links_by_task_rows {
                                Some(v) => v.jv(),
                                None => JsonView::Array(Seq::empty()),
                            },
                        ),
                    ],
                ),
            ),
    {
        let rows = match change_links_by_task_rows {
            Some(v) => v.deep_copy(),
            None => array_of(Vec::new()),
        };
        let ghost rv = rows.jv();
        assert(rv == match change_links_by_task_rows {
            Some(v) => v.jv(),
            None => JsonView::Array(Seq::empty()),
        }) by {
            if change_links_by_task_rows is None {
                assert(items_view(Seq::<JsonValue>::empty()) =~= Seq::<JsonView>::empty());
            }
        }
        let mut fields: Vec<JsonField> = Vec::new();
        fields.push(JsonField { key: owned("change_links_by_task"), value: rows });
        assert(fields_view(fields@) =~= seq![("change_links_by_task"@, rv)]);
        let payload = object_of(fields);
        self.normalize_linked_change_lookup_payload(&payload)
    }
}


// ----- request bodies ---------------------------------------------------------

/// The text of a required request field, trimmed; blank text is refused.
pub open spec fn spec_required_request_text(value: Seq<char>, field: Seq<char>) -> Result<
    Seq<char>,
    Seq<char>,
> {
    match spec_normalize_text(value) {
        Some(t) => Ok(t),
        None => Err("Plan HTTP "@ + field + " must not be empty."@),
    }
}

/// The member `key` holding the trimmed text of an optional field, or no
/// member when the field is absent or blank.
pub open spec fn optional_text_member(key: Seq<char>, value: Option<Seq<char>>) -> Seq<
    (Seq<char>, JsonView),
> {
    match value {
        Some(v) => match spec_normalize_text(v) {
            Some(t) => seq![(key, JsonView::Str(t))],
            None => Seq::empty(),
        },
        None => Seq::empty(),
    }
}

/// The body of a create-change request: the three required fields, then
/// the optional ones that hold text.
pub open spec fn spec_create_change_body(
    task_id: Seq<char>,
    title: Seq<char>,
    base_line: Seq<char>,
    change_id: Option<Seq<char>>,
    fork_snapshot_id: Option<Seq<char>>,
    forked_from_line: Option<Seq<char>>,
) -> Result<JsonView, Seq<char>> {
    match spec_required_request_text(task_id, "task_id"@) {
        Err(e) => Err(e),
        Ok(t) => match spec_required_request_text(title, "title"@) {
            Err(e) => Err(e),
            Ok(ti) => match spec_required_request_text(base_line, "base_line"@) {
                Err(e) => Err(e),
                Ok(b) => Ok(
                    JsonView::Object(
                        seq![
                            ("task_id"@, JsonView::Str(t)),
                            ("title"@, JsonView::Str(ti)),
                            ("base_line"@, JsonView::Str(b)),
                        ] + optional_text_member("change_id"@, change_id) + optional_text_member(
                            "fork_snapshot_id"@,
                            fork_snapshot_id,
                        ) + optional_text_member("forked_from_line"@, forked_from_line),
                    ),
                ),
            },
        },
    }
}

fn required_request_text(value: &str, field: &str) -> (r: Result<String, String>)
    ensures
        text_result_view(r) == spec_required_request_text(value@, field@),
{
    match normalize_optional_text(Some(value)) {
        Some(t) => Ok(t),
        None => Err(cat3("Plan HTTP ", field, " must not be empty.")),
    }
}

/// Appends the member `key` when `value` holds text.
fn push_optional_text(fields: &mut Vec<JsonField>, key: &str, value: Option<&str>)
    ensures
        fields_view(final(fields)@) == fields_view(old(fields)@) + optional_text_member(
            key@,
            opt_view(value),
        ),
{
    let ghost before = fields_view(fields@);
    match normalize_optional_text(value) {
        Some(text) => {
            let ghost t = text@;
            fields.push(JsonField { key: owned(key), value: JsonValue::String(text) });
            assert(fields_view(fields@) =~= before + seq![(key@, JsonView::Str(t))]);
        },
        None => {
            assert(fields_view(fields@) =~= before + Seq::<(Seq<char>, JsonView)>::empty());
        },
    }
}

impl<S> ChangeJson<S> {
    /// The JSON body of a request that creates a change.
    pub fn build_create_change_body(
        &self,
        task_id: &str,
        title: &str,
        base_line: &str,
        change_id: Option<&str>,
        fork_snapshot_id: Option<&str>,
        forked_from_line: Option<&str>,
    ) -> (r: Result<JsonValue, String>)
        ensures
            result_view(r) == spec_create_change_body(
                task_id@,
                title@,
                base_line@,
                opt_view(change_id),
                opt_view(fork_snapshot_id),
                opt_view(forked_from_line),
            ),
    {
        let task_id = required_request_text(task_id, "task_id")?;
        let title = required_request_text(title, "title")?;
        let base_line = required_request_text(base_line, "base_line")?;
        let ghost (t, ti, b) = (task_id@, title@, base_line@);
        let mut fields: Vec<JsonField> = Vec::new();
        fields.push(JsonField { key: owned("task_id"), value: JsonValue::String(task_id) });
        fields.push(JsonField { key: owned("title"), value: JsonValue::String(title) });
        fields.push(JsonField { key: owned("base_line"), value: JsonValue::String(base_line) });
        assert(fields_view(fields@) =~= seq![
            ("task_id"@, JsonView::Str(t)),
            ("title"@, JsonView::Str(ti)),
            ("base_line"@, JsonView::Str(b)),
        ]);
        push_optional_text(&mut fields, "change_id", change_id);
        push_optional_text(&mut fields, "fork_snapshot_id", fork_snapshot_id);
        push_optional_text(&mut fields, "forked_from_line", forked_from_line);
        Ok(object_of(fields))
    }

    /// The JSON body of a request that closes a change with `status`.
    pub fn build_close_change_body(&self, status: &str) -> (r: Result<JsonValue, String>)
        ensures
            result_view(r) == match spec_required_request_text(status@, "status"@) {
                Ok(s) => Ok(JsonView::Object(seq![("status"@, JsonView::Str(s))])),
                Err(e) => Err(e),
            },
    {
        let status = required_request_text(status, "status")?;
        let ghost s = status@;
        let mut fields: Vec<JsonField> = Vec::new();
        fields.push(JsonField { key: owned("status"), value: JsonValue::String(status) });
        assert(fields_view(fields@) =~= seq![("status"@, JsonView::Str(s))]);
        Ok(object_of(fields))
    }
}

// ----- land submission recovery ---------------------------------------------

/// The id of the change a state belongs to: its `change_id` text, or the
/// fallback when it has none.
pub open spec fn state_change_id(change: JsonView, fallback: Seq<char>) -> Seq<char> {
    match view_get(change, "change_id"@) {
        Some(JsonView::Str(id)) => id,
        _ => fallback,
    }
}

/// The land submission a change's state records: the members of its
/// `landing_summary` object, with `response_recovery` set to the action
/// `submit_land` and the change's id; none when there is no such object.
pub open spec fn spec_recovered_land_submission(change: JsonView, fallback: Seq<char>) -> Option<
    JsonView,
> {
    match view_get(change, "landing_summary"@) {
        Some(JsonView::Object(summary)) => Some(
            JsonView::Object(
                field_set(
                    summary,
                    "response_recovery"@,
                    JsonView::Object(
                        seq![
                            ("action"@, JsonView::Str("submit_land"@)),
                            ("change_id"@, JsonView::Str(state_change_id(change, fallback))),
                        ],
                    ),
                ),
            ),
        ),
        _ => None,
    }
}

impl<S> ChangeJson<S> {
    /// Recovers the land submission recorded in a change's state, so that a
    /// land whose response was lost can be answered from the change.
    pub fn recover_land_submission_from_change_state(&self, change: &JsonValue, fallback_change_id: &str) -> (r: Option<JsonValue>)
        ensures
            match spec_recovered_land_submission(change.jv(), fallback_change_id@) {
                Some(v) => r is Some && r->Some_0.jv() == v,
                None => r is None,
            },
    {
        let summary = match change.get("landing_summary") {
            Some(JsonValue::Object(fields)) => fields,
            _ => {
                return None;
            },
        };
        proof {
            crate::json::lemma_object_view(*summary);
        }
        let change_id = match change.get("change_id") {
            Some(JsonValue::String(id)) => id.clone(),
            _ => owned(fallback_change_id),
        };
        let ghost id = change_id@;
        let mut recovery: Vec<JsonField> = Vec::new();
        recovery.push(JsonField { key: owned("action"), value: JsonValue::String(owned("submit_land")) });
        recovery.push(JsonField { key: owned("change_id"), value: JsonValue::String(change_id) });
        assert(fields_view(recovery@) =~= seq![
            ("action"@, JsonView::Str("submit_land"@)),
            ("change_id"@, JsonView::Str(id)),
        ]);
        let mut fields = copy_fields(summary);
        set_field(&mut fields, owned("response_recovery"), object_of(recovery));
        Some(object_of(fields))
    }
}

} // verus!
