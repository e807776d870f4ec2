//! JSON values as plain data, with a mathematical view, field lookup and
//! field replacement with the semantics of a JSON object map.

use vstd::prelude::*;

use crate::text::str_eq;

verus! {

/// A JSON number: an integer that fits in `i64`, or any other number kept
/// by its textual form.
#[derive(Debug)]
pub enum JsonNumber {
    Int(i64),
    Other(String),
}

#[derive(Debug)]
pub enum JsonValue {
    Null,
    Bool(bool),
    Number(JsonNumber),
    String(String),
    Array(Vec<JsonValue>),
    Object(Vec<JsonField>),
}

/// One member of a JSON object; keys of one object are distinct.
#[derive(Debug)]
pub struct JsonField {
    pub key: String,
    pub value: JsonValue,
}

/// The mathematical value of a JSON value.
pub enum JsonView {
    Null,
    Bool(bool),
    Int(i64),
    OtherNumber(Seq<char>),
    Str(Seq<char>),
    Array(Seq<JsonView>),
    Object(Seq<(Seq<char>, JsonView)>),
}

impl JsonValue {
    pub open spec fn jv(self) -> JsonView
        decreases self,
    {
        match self {
            JsonValue::Null => JsonView::Null,
            JsonValue::Bool(b) => JsonView::Bool(b),
            JsonValue::Number(JsonNumber::Int(i)) => JsonView::Int(i),
            JsonValue::Number(JsonNumber::Other(s)) => JsonView::OtherNumber(s@),
            JsonValue::String(s) => JsonView::Str(s@),
            JsonValue::Array(items) => JsonView::Array(
                Seq::new(
                    items@.len(),
                    |i: int|
                        if 0 <= i < items@.len() {
                            items@[i].jv()
                        } else {
                            JsonView::Null
                        },
                ),
            ),
            JsonValue::Object(fields) => JsonView::Object(
                Seq::new(
                    fields@.len(),
                    |i: int|
                        if 0 <= i < fields@.len() {
                            (fields@[i].key@, fields@[i].value.jv())
                        } else {
                            (Seq::empty(), JsonView::Null)
                        },
                ),
            ),
        }
    }
}

/// The views of the items of an array.
pub open spec fn items_view(items: Seq<JsonValue>) -> Seq<JsonView> {
    Seq::new(items.len(), |i: int| items[i].jv())
}

/// The views of the members of an object.
pub open spec fn fields_view(fields: Seq<JsonField>) -> Seq<(Seq<char>, JsonView)> {
    Seq::new(fields.len(), |i: int| (fields[i].key@, fields[i].value.jv()))
}

pub proof fn lemma_array_view(items: Vec<JsonValue>)
    ensures
        JsonValue::Array(items).jv() == JsonView::Array(items_view(items@)),
{
    assert(JsonValue::Array(items).jv()->Array_0 =~= items_view(items@));
}

pub proof fn lemma_object_view(fields: Vec<JsonField>)
    ensures
        JsonValue::Object(fields).jv() == JsonView::Object(fields_view(fields@)),
{
    assert(JsonValue::Object(fields).jv()->Object_0 =~= fields_view(fields@));
}

/// Position of the member named `key`, or -1.
pub open spec fn field_index<V>(fields: Seq<(Seq<char>, V)>, key: Seq<char>) -> int
    decreases fields.len(),
{
    if fields.len() == 0 {
        -1
    } else if fields[0].0 == key {
        0
    } else {
        let r = field_index(fields.drop_first(), key);
        if r < 0 {
            -1
        } else {
            r + 1
        }
    }
}

/// The value of the member named `key`.
pub open spec fn field_get<V>(fields: Seq<(Seq<char>, V)>, key: Seq<char>) -> Option<V> {
    let i = field_index(fields, key);
    if i < 0 {
        None
    } else {
        Some(fields[i].1)
    }
}

/// The object with the member named `key` set to `value`: replaced in place
/// when present, appended otherwise.
pub open spec fn field_set<V>(fields: Seq<(Seq<char>, V)>, key: Seq<char>, value: V) -> Seq<
    (Seq<char>, V),
> {
    let i = field_index(fields, key);
    if i < 0 {
        fields.push((key, value))
    } else {
        fields.update(i, (key, value))
    }
}

/// After a member is set, reading it gives the value written, and reading
/// any other member gives what it gave before.
pub proof fn law_field_get_after_set<V>(fields: Seq<(Seq<char>, V)>, key: Seq<char>, value: V, other: Seq<char>)
    ensures
        field_get(field_set(fields, key, value), key) == Some(value),
        other != key ==> field_get(field_set(fields, key, value), other) == field_get(fields, other),
{
    let set = field_set(fields, key, value);
    let i = field_index(fields, key);
    lemma_field_index(fields, key);
    lemma_field_index(fields, other);
    lemma_field_index(set, key);
    lemma_field_index(set, other);
    if i < 0 {
        lemma_field_index_of_first(set, key, fields.len() as int);
        if other != key {
            let j = field_index(fields, other);
            if j >= 0 {
                lemma_field_index_of_first(set, other, j);
            } else {
                assert forall|k: int| 0 <= k < set.len() implies set[k].0 != other by {
                    if k < fields.len() {
                        assert(set[k] == fields[k]);
                    }
                }
                if field_index(set, other) >= 0 {
                    assert(set[field_index(set, other)].0 == other);
                }
            }
        }
    } else {
        lemma_field_index_of_first(set, key, i);
        if other != key {
            let j = field_index(fields, other);
            if j >= 0 {
                lemma_field_index_of_first(set, other, j);
            } else {
                assert forall|k: int| 0 <= k < set.len() implies set[k].0 != other by {
                    if k != i {
                        assert(set[k] == fields[k]);
                    }
                }
                if field_index(set, other) >= 0 {
                    assert(set[field_index(set, other)].0 == other);
                }
            }
        }
    }
}

/// The member `key` of an object view; `None` for any other value.
pub open spec fn view_get(v: JsonView, key: Seq<char>) -> Option<JsonView> {
    match v {
        JsonView::Object(fields) => field_get(fields, key),
        _ => None,
    }
}

pub proof fn lemma_field_index<V>(fields: Seq<(Seq<char>, V)>, key: Seq<char>)
    ensures
        -1 <= field_index(fields, key) < fields.len(),
        field_index(fields, key) >= 0 ==> fields[field_index(fields, key)].0 == key,
        field_index(fields, key) >= 0 ==> forall|j: int|
            0 <= j < field_index(fields, key) ==> fields[j].0 != key,
        field_index(fields, key) < 0 ==> forall|j: int| 0 <= j < fields.len() ==> fields[j].0 != key,
    decreases fields.len(),
{
    if fields.len() > 0 && fields[0].0 != key {
        lemma_field_index(fields.drop_first(), key);
        assert forall|j: int| 1 <= j < fields.len() implies fields[j] == fields.drop_first()[j - 1] by {}
    }
}

pub proof fn lemma_field_index_of_first<V>(fields: Seq<(Seq<char>, V)>, key: Seq<char>, i: int)
    requires
        0 <= i < fields.len(),
        fields[i].0 == key,
        forall|j: int| 0 <= j < i ==> fields[j].0 != key,
    ensures
        field_index(fields, key) == i,
    decreases i,
{
    lemma_field_index(fields, key);
    if i > 0 {
        lemma_field_index_of_first(fields.drop_first(), key, i - 1);
    }
}

impl JsonValue {
    /// A copy of this value with the same view.
    pub fn deep_copy(&self) -> (r: JsonValue)
        ensures
            r.jv() == self.jv(),
        decreases self,
    {
        match self {
            JsonValue::Null => JsonValue::Null,
            JsonValue::Bool(b) => JsonValue::Bool(*b),
            JsonValue::Number(JsonNumber::Int(i)) => JsonValue::Number(JsonNumber::Int(*i)),
            JsonValue::Number(JsonNumber::Other(s)) => JsonValue::Number(JsonNumber::Other(s.clone())),
            JsonValue::String(s) => JsonValue::String(s.clone()),
            JsonValue::Array(items) => {
                let mut out: Vec<JsonValue> = Vec::new();
                let mut i: usize = 0;
                while i < items.len()
                    invariant
                        *self == JsonValue::Array(*items),
                        i <= items@.len(),
                        out@.len() == i,
                        forall|j: int| 0 <= j < i ==> (#[trigger] out@[j]).jv() == items@[j].jv(),
                    decreases items@.len() - i,
                {
                    assert(decreases_to!(*self => self->Array_0));
                    assert(decreases_to!(*items => items@));
                    assert(decreases_to!(items@ => items@[i as int]));
                    let item = items[i].deep_copy();
                    out.push(item);
                    i = i + 1;
                }
                proof {
                    lemma_array_view(out);
                    lemma_array_view(*items);
                    assert(items_view(out@) =~= items_view(items@));
                }
                JsonValue::Array(out)
            },
            JsonValue::Object(fields) => {
                let mut out: Vec<JsonField> = Vec::new();
                let mut i: usize = 0;
                while i < fields.len()
                    invariant
                        *self == JsonValue::Object(*fields),
                        i <= fields@.len(),
                        out@.len() == i,
                        forall|j: int|
                            0 <= j < i ==> (#[trigger] out@[j]).value.jv() == fields@[j].value.jv()
                                && out@[j].key@ == fields@[j].key@,
                    decreases fields@.len() - i,
                {
                    assert(decreases_to!(*self => self->Object_0));
                    assert(decreases_to!(*fields => fields@));
                    assert(decreases_to!(fields@ => fields@[i as int]));
                    assert(decreases_to!(fields@[i as int] => fields@[i as int].value));
                    let value = fields[i].value.deep_copy();
                    out.push(JsonField { key: fields[i].key.clone(), value });
                    i = i + 1;
                }
                proof {
                    lemma_object_view(out);
                    lemma_object_view(*fields);
                    assert(fields_view(out@) =~= fields_view(fields@));
                }
                JsonValue::Object(out)
            },
        }
    }

    /// The member `key` of an object; `None` for any other value.
    pub fn get(&self, key: &str) -> (r: Option<&JsonValue>)
        ensures
            r matches Some(v) ==> view_get(self.jv(), key@) == Some(v.jv()),
            r is None ==> view_get(self.jv(), key@) is None,
    {
        match self {
            JsonValue::Object(fields) => {
                proof {
                    lemma_object_view(*fields);
                }
                get_field(fields, key)
            },
            _ => None,
        }
    }

    pub fn as_str(&self) -> (r: Option<&String>)
        ensures
            r matches Some(s) ==> self.jv() == JsonView::Str(s@),
            r is None ==> !(self.jv() is Str),
    {
        match self {
            JsonValue::String(s) => Some(s),
            _ => None,
        }
    }
}

/// A copy of the members of an object.
pub fn copy_fields(fields: &Vec<JsonField>) -> (r: Vec<JsonField>)
    ensures
        fields_view(r@) == fields_view(fields@),
{
    let mut out: Vec<JsonField> = Vec::new();
    let mut i: usize = 0;
    while i < fields.len()
        invariant
            i <= fields@.len(),
            out@.len() == i,
            forall|j: int|
                0 <= j < i ==> (#[trigger] out@[j]).value.jv() == fields@[j].value.jv() && out@[j].key@
                    == fields@[j].key@,
        decreases fields@.len() - i,
    {
        let value = fields[i].value.deep_copy();
        out.push(JsonField { key: fields[i].key.clone(), value });
        i = i + 1;
    }
    assert(fields_view(out@) =~= fields_view(fields@));
    out
}

/// A copy of the items of an array.
pub fn copy_items(items: &Vec<JsonValue>) -> (r: Vec<JsonValue>)
    ensures
        items_view(r@) == items_view(items@),
{
    let mut out: Vec<JsonValue> = Vec::new();
    let mut i: usize = 0;
    while i < items.len()
        invariant
            i <= items@.len(),
            out@.len() == i,
            forall|j: int| 0 <= j < i ==> (#[trigger] out@[j]).jv() == items@[j].jv(),
        decreases items@.len() - i,
    {
        let item = items[i].deep_copy();
        out.push(item);
        i = i + 1;
    }
    assert(items_view(out@) =~= items_view(items@));
    out
}

/// The value of the member named `key`.
pub fn get_field<'a>(fields: &'a Vec<JsonField>, key: &str) -> (r: Option<&'a JsonValue>)
    ensures
        r matches Some(v) ==> field_get(fields_view(fields@), key@) == Some(v.jv()),
        r is None ==> field_get(fields_view(fields@), key@) is None,
{
    let ghost fv = fields_view(fields@);
    proof {
        lemma_field_index(fv, key@);
    }
    let mut i: usize = 0;
    while i < fields.len()
        invariant
            fv == fields_view(fields@),
            i <= fields@.len(),
            forall|j: int| 0 <= j < i ==> fv[j].0 != key@,
        decreases fields@.len() - i,
    {
        if str_eq(fields[i].key.as_str(), key) {
            proof {
                lemma_field_index_of_first(fv, key@, i as int);
            }
            return Some(&fields[i].value);
        }
        i = i + 1;
    }
    proof {
        if field_index(fv, key@) >= 0 {
            assert(fv[field_index(fv, key@)].0 == key@);
        }
    }
    None
}

/// Sets the member named `key` to `value`.
pub fn set_field(fields: &mut Vec<JsonField>, key: String, value: JsonValue)
    ensures
        fields_view(final(fields)@) == field_set(fields_view(old(fields)@), key@, value.jv()),
{
    let ghost fv = fields_view(fields@);
    proof {
        lemma_field_index(fv, key@);
    }
    let mut i: usize = 0;
    while i < fields.len()
        invariant
            fv == fields_view(fields@),
            fields@ == old(fields)@,
            i <= fields@.len(),
            forall|j: int| 0 <= j < i ==> fv[j].0 != key@,
        decreases fields@.len() - i,
    {
        if str_eq(fields[i].key.as_str(), key.as_str()) {
            proof {
                lemma_field_index_of_first(fv, key@, i as int);
            }
            let ghost new_entry = (key@, value.jv());
            fields.set(i, JsonField { key, value });
            assert(fields_view(fields@) =~= fv.update(i as int, new_entry));
            return;
        }
        i = i + 1;
    }
    proof {
        if field_index(fv, key@) >= 0 {
            assert(fv[field_index(fv, key@)].0 == key@);
        }
    }
    let ghost new_entry = (key@, value.jv());
    fields.push(JsonField { key, value });
    assert(fields_view(fields@) =~= fv.push(new_entry));
}

/// The object without the member named `key`.
pub open spec fn field_remove<V>(fields: Seq<(Seq<char>, V)>, key: Seq<char>) -> Seq<(Seq<char>, V)> {
    let i = field_index(fields, key);
    if i < 0 {
        fields
    } else {
        fields.remove(i)
    }
}

/// Removes the member named `key`, if there is one.
pub fn remove_field(fields: &mut Vec<JsonField>, key: &str)
    ensures
        fields_view(final(fields)@) == field_remove(fields_view(old(fields)@), key@),
{
    let ghost fv = fields_view(fields@);
    proof {
        lemma_field_index(fv, key@);
    }
    let mut i: usize = 0;
    while i < fields.len()
        invariant
            fv == fields_view(fields@),
            fields@ == old(fields)@,
            i <= fields@.len(),
            forall|j: int| 0 <= j < i ==> fv[j].0 != key@,
        decreases fields@.len() - i,
    {
        if str_eq(fields[i].key.as_str(), key) {
            proof {
                lemma_field_index_of_first(fv, key@, i as int);
            }
            fields.remove(i);
            assert(fields_view(fields@) =~= fv.remove(i as int));
            return;
        }
        i = i + 1;
    }
    proof {
        if field_index(fv, key@) >= 0 {
            assert(fv[field_index(fv, key@)].0 == key@);
        }
    }
}

/// An object value from its members.
pub fn object_of(fields: Vec<JsonField>) -> (r: JsonValue)
    ensures
        r.jv() == JsonView::Object(fields_view(fields@)),
{
    proof {
        lemma_object_view(fields);
    }
    JsonValue::Object(fields)
}

/// An array value from its items.
pub fn array_of(items: Vec<JsonValue>) -> (r: JsonValue)
    ensures
        r.jv() == JsonView::Array(items_view(items@)),
{
    proof {
        lemma_array_view(items);
    }
    JsonValue::Array(items)
}

// ----- folds that stop at the first failure ---------------------------------

/// Runs `step` over `items` in order from `init`; the first failure wins.
pub open spec fn spec_fold<A, B>(
    items: Seq<A>,
    init: B,
    step: spec_fn(B, A) -> Result<B, Seq<char>>,
) -> Result<B, Seq<char>>
    decreases items.len(),
{
    if items.len() == 0 {
        Ok(init)
    } else {
        match spec_fold(items.drop_last(), init, step) {
            Err(e) => Err(e),
            Ok(b) => step(b, items.last()),
        }
    }
}

pub proof fn lemma_fold_start<A, B>(items: Seq<A>, init: B, step: spec_fn(B, A) -> Result<B, Seq<char>>)
    ensures
        spec_fold(items.subrange(0, 0), init, step) == Ok::<B, Seq<char>>(init),
{
}

pub proof fn lemma_fold_step<A, B>(
    items: Seq<A>,
    init: B,
    step: spec_fn(B, A) -> Result<B, Seq<char>>,
    i: int,
)
    requires
        0 <= i < items.len(),
    ensures
        spec_fold(items.subrange(0, i + 1), init, step) == match spec_fold(
            items.subrange(0, i),
            init,
            step,
        ) {
            Err(e) => Err(e),
            Ok(b) => step(b, items[i]),
        },
{
    assert(items.subrange(0, i + 1).drop_last() =~= items.subrange(0, i));
}

pub proof fn lemma_fold_error_extends<A, B>(
    items: Seq<A>,
    init: B,
    step: spec_fn(B, A) -> Result<B, Seq<char>>,
    k: int,
    e: Seq<char>,
)
    requires
        0 <= k <= items.len(),
        spec_fold(items.subrange(0, k), init, step) == Err::<B, Seq<char>>(e),
    ensures
        spec_fold(items, init, step) == Err::<B, Seq<char>>(e),
    decreases items.len() - k,
{
    if k == items.len() {
        assert(items.subrange(0, k) =~= items);
    } else {
        lemma_fold_step(items, init, step, k);
        lemma_fold_error_extends(items, init, step, k + 1, e);
    }
}

pub proof fn lemma_fold_whole<A, B>(items: Seq<A>, init: B, step: spec_fn(B, A) -> Result<B, Seq<char>>)
    ensures
        spec_fold(items.subrange(0, items.len() as int), init, step) == spec_fold(items, init, step),
{
    assert(items.subrange(0, items.len() as int) =~= items);
}

} // verus!
