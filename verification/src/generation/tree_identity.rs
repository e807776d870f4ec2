//! The identity of a tree from its entries, and the restoration of a
//! retained tree's entries when its content is repacked.
//!
//! A tree's identity is `TRE-` and the upper-case hex of the first ten bytes
//! of the SHA-256 of its canonical entry list: a compact JSON array with one
//! object per entry, in entry order. A blob entry's object holds `mode`,
//! `name`, `size_bytes`, `target_id` and `type`, a tree entry's object
//! `name`, `target_id` and `type`, each object's members in key order.

use vstd::prelude::*;
use vstd::utf8::encode_utf8;

use crate::digest::{sha256_digest, spec_sha256};
use crate::generation::activation::{text_less, text_lt};
use crate::ids::{spec_tree_id, tree_id_from_hash80};
use crate::json::spec_fold;
use crate::read::BinaryTreeEntryView;
use crate::text::{
    ascii_lower_seq, cat3, chars_eq_ignore_ascii_case, chars_of, decimal_chars, push_all, push_str,
    spec_decimal, str_eq, string_from_chars, to_ascii_lowercase,
};

verus! {

// ----- JSON string literals ----------------------------------------------------

/// The JSON string literal that `serde_json` writes for `text`.
pub uninterp spec fn spec_json_string_literal(text: Seq<char>) -> Seq<char>;

/// Writes `text` as a JSON string literal by displaying a
/// `serde_json::Value::String`. Trusted: the result is the named literal of
/// exactly this text; nothing is stated of how characters are escaped.
#[verifier::external_body]
fn json_string_literal(text: &str) -> (r: String)
    ensures
        r@ == spec_json_string_literal(text@),
{
    serde_json::Value::from(text).to_string()
}

// ----- canonical entry list ----------------------------------------------------

/// The compact JSON object of one entry, or the reason it has none.
pub open spec fn entry_object(e: BinaryTreeEntryView) -> Result<Seq<char>, Seq<char>> {
    let name = e.entry_name@;
    let q = |s: Seq<char>| spec_json_string_literal(s);
    if e.entry_type@ == "blob"@ {
        match e.size_bytes {
            None => Err("tree entry \""@ + name + "\" is missing canonical blob size"@),
            Some(size) => match e.mode {
                None => Err("tree entry \""@ + name + "\" is missing canonical blob mode"@),
                Some(mode) => Ok(
                    "{\"mode\":"@ + q(mode@) + ",\"name\":"@ + q(name) + ",\"size_bytes\":"@
                        + spec_decimal(size as nat) + ",\"target_id\":"@ + q(e.target_id@)
                        + ",\"type\":\"blob\"}"@,
                ),
            },
        }
    } else if e.entry_type@ == "tree"@ {
        Ok("{\"name\":"@ + q(name) + ",\"target_id\":"@ + q(e.target_id@) + ",\"type\":\"tree\"}"@)
    } else {
        Err("tree entry \""@ + name + "\" has unsupported type "@ + e.entry_type@)
    }
}

/// Collects the object of each entry in order; the first entry without one
/// decides the failure.
pub open spec fn object_step() -> spec_fn(Seq<Seq<char>>, BinaryTreeEntryView) -> Result<
    Seq<Seq<char>>,
    Seq<char>,
> {
    |acc: Seq<Seq<char>>, e: BinaryTreeEntryView|
        match entry_object(e) {
            Ok(o) => Ok(acc.push(o)),
            Err(m) => Err(m),
        }
}

/// Items joined by commas.
pub open spec fn comma_joined(items: Seq<Seq<char>>) -> Seq<char>
    decreases items.len(),
{
    if items.len() == 0 {
        Seq::empty()
    } else if items.len() == 1 {
        items[0]
    } else {
        comma_joined(items.drop_last()) + ","@ + items.last()
    }
}

/// The identity of a tree with these entries, or why it has none.
pub open spec fn spec_tree_id_of_entries(entries: Seq<BinaryTreeEntryView>) -> Result<
    Seq<char>,
    Seq<char>,
> {
    match spec_fold(entries, Seq::empty(), object_step()) {
        Err(m) => Err(m),
        Ok(objects) => Ok(
            spec_tree_id(
                spec_sha256(encode_utf8("["@ + comma_joined(objects) + "]"@)).subrange(0, 10),
            ),
        ),
    }
}

/// The compact JSON object of a blob entry, given the JSON string literals
/// of its mode, name and target id.
pub fn blob_entry_object(mode_literal: &str, name_literal: &str, size_bytes: u64, target_literal: &str) -> (v:
    Vec<char>)
    ensures
        v@ == "{\"mode\":"@ + mode_literal@ + ",\"name\":"@ + name_literal@ + ",\"size_bytes\":"@
            + spec_decimal(size_bytes as nat) + ",\"target_id\":"@ + target_literal@
            + ",\"type\":\"blob\"}"@,
{
    let mut v = chars_of("{\"mode\":");
    push_str(&mut v, mode_literal);
    push_str(&mut v, ",\"name\":");
    push_str(&mut v, name_literal);
    push_str(&mut v, ",\"size_bytes\":");
    let digits = decimal_chars(size_bytes);
    push_all(&mut v, &digits);
    push_str(&mut v, ",\"target_id\":");
    push_str(&mut v, target_literal);
    push_str(&mut v, ",\"type\":\"blob\"}");
    v
}

/// The compact JSON object of a tree entry, given the JSON string literals
/// of its name and target id.
pub fn tree_entry_object(name_literal: &str, target_literal: &str) -> (v: Vec<char>)
    ensures
        v@ == "{\"name\":"@ + name_literal@ + ",\"target_id\":"@ + target_literal@
            + ",\"type\":\"tree\"}"@,
{
    let mut v = chars_of("{\"name\":");
    push_str(&mut v, name_literal);
    push_str(&mut v, ",\"target_id\":");
    push_str(&mut v, target_literal);
    push_str(&mut v, ",\"type\":\"tree\"}");
    v
}

fn entry_object_of(e: &BinaryTreeEntryView) -> (r: Result<Vec<char>, String>)
    ensures
        match r {
            Ok(v) => entry_object(*e) == Ok::<Seq<char>, Seq<char>>(v@),
            Err(m) => entry_object(*e) == Err::<Seq<char>, Seq<char>>(m@),
        },
{
    let name = e.entry_name.as_str();
    if str_eq(e.entry_type.as_str(), "blob") {
        let size = match e.size_bytes {
            Some(size) => size,
            None => {
                return Err(cat3("tree entry \"", name, "\" is missing canonical blob size"));
            },
        };
        let mode = match &e.mode {
            Some(mode) => mode,
            None => {
                return Err(cat3("tree entry \"", name, "\" is missing canonical blob mode"));
            },
        };
        let mode_literal = json_string_literal(mode.as_str());
        let name_literal = json_string_literal(name);
        let target_literal = json_string_literal(e.target_id.as_str());
        Ok(blob_entry_object(mode_literal.as_str(), name_literal.as_str(), size, target_literal.as_str()))
    } else if str_eq(e.entry_type.as_str(), "tree") {
        let name_literal = json_string_literal(name);
        let target_literal = json_string_literal(e.target_id.as_str());
        Ok(tree_entry_object(name_literal.as_str(), target_literal.as_str()))
    } else {
        let mut v = chars_of("tree entry \"");
        push_str(&mut v, name);
        push_str(&mut v, "\" has unsupported type ");
        push_str(&mut v, e.entry_type.as_str());
        Err(string_from_chars(&v))
    }
}

/// The identity of a tree with exactly these entries, in this order.
/// Fails, naming the first offending entry, when a blob entry lacks its size
/// or mode or an entry is neither a blob nor a tree.
pub fn tree_id_from_canonical_entries(entries: &[BinaryTreeEntryView]) -> (r: Result<String, String>)
    ensures
        match r {
            Ok(id) => spec_tree_id_of_entries(entries@) == Ok::<Seq<char>, Seq<char>>(id@),
            Err(m) => spec_tree_id_of_entries(entries@) == Err::<Seq<char>, Seq<char>>(m@),
        },
{
    let ghost es = entries@;
    let ghost step = object_step();
    let ghost mut objects: Seq<Seq<char>> = Seq::empty();
    let mut text = chars_of("[");
    let mut i: usize = 0;
    proof {
        assert(es.subrange(0, 0) =~= Seq::<BinaryTreeEntryView>::empty());
    }
    while i < entries.len()
        invariant
            es == entries@,
            step == object_step(),
            i <= es.len(),
            spec_fold(es.subrange(0, i as int), Seq::empty(), step) == Ok::<
                Seq<Seq<char>>,
                Seq<char>,
            >(objects),
            text@ == "["@ + comma_joined(objects),
            objects.len() == i,
        decreases es.len() - i,
    {
        proof {
            assert(es.subrange(0, i + 1).drop_last() =~= es.subrange(0, i as int));
            assert(es.subrange(0, i + 1).last() == es[i as int]);
        }
        let object = match entry_object_of(&entries[i]) {
            Ok(o) => o,
            Err(m) => {
                proof {
                    crate::json::lemma_fold_error_extends(es, Seq::empty(), step, i + 1, m@);
                }
                return Err(m);
            },
        };
        if i > 0 {
            push_str(&mut text, ",");
        }
        push_all(&mut text, &object);
        proof {
            let next = objects.push(object@);
            assert(next.drop_last() =~= objects);
            if i == 0 {
                assert(comma_joined(next) == object@);
                assert(text@ =~= "["@ + comma_joined(next));
            } else {
                assert(text@ =~= "["@ + comma_joined(next));
            }
            objects = next;
        }
        i = i + 1;
    }
    push_str(&mut text, "]");
    proof {
        assert(es.subrange(0, es.len() as int) =~= es);
    }
    let encoded = string_from_chars(&text);
    let digest = sha256_digest(encoded.as_str().as_bytes());
    let mut hash80: [u8; 10] = [0u8; 10];
    let mut k: usize = 0;
    while k < 10
        invariant
            digest@.len() == 32,
            k <= 10,
            hash80@.len() == 10,
            forall|j: int| 0 <= j < k ==> hash80@[j] == digest@[j],
        decreases 10 - k,
    {
        hash80.set(k, digest[k]);
        k = k + 1;
    }
    assert(hash80@ =~= digest@.subrange(0, 10));
    Ok(tree_id_from_hash80(&hash80))
}

// ----- restoring a retained tree ---------------------------------------------------

/// The size a blob size table records for `blob_id`: its first row with
/// that id.
pub open spec fn size_of_blob(rows: Seq<(String, u64)>, blob_id: Seq<char>) -> Option<u64>
    decreases rows.len(),
{
    if rows.len() == 0 {
        None
    } else if rows[0].0@ == blob_id {
        Some(rows[0].1)
    } else {
        size_of_blob(rows.drop_first(), blob_id)
    }
}

/// How an optional text reads in a message: `Some("..")` or `None`.
pub open spec fn optional_text_shown(o: Option<String>) -> Seq<char> {
    match o {
        Some(s) => "Some(\""@ + s@ + "\")"@,
        None => "None"@,
    }
}

/// A retained entry with its canonical blob size restored, or why the
/// entry cannot be kept: a blob must be in the retained closure and agree
/// with its recorded size, a child tree has no size and mode `tree`, and no
/// other entry type is allowed.
pub open spec fn restored_entry(tree_id: Seq<char>, sizes: Seq<(String, u64)>, e: BinaryTreeEntryView) -> Result<
    BinaryTreeEntryView,
    Seq<char>,
> {
    let head = "retained tree "@ + tree_id + " entry \""@ + e.entry_name@ + "\""@;
    if e.entry_type@ == "blob"@ {
        match size_of_blob(sizes, ascii_lower_seq(e.target_id@)) {
            None => Err(
                head + " references blob "@ + e.target_id@
                    + " outside the retained canonical closure"@,
            ),
            Some(n) => if e.size_bytes matches Some(p) && p != n {
                Err(head + " size disagrees with canonical blob "@ + e.target_id@)
            } else {
                Ok(
                    BinaryTreeEntryView {
                        entry_ordinal: e.entry_ordinal,
                        entry_name: e.entry_name,
                        entry_type: e.entry_type,
                        target_id: e.target_id,
                        size_bytes: Some(n),
                        mode: e.mode,
                    },
                )
            },
        }
    } else if e.entry_type@ == "tree"@ {
        if e.size_bytes is Some {
            Err(head + " gives a child tree a byte size"@)
        } else if !(e.mode matches Some(m) && m@ == "tree"@) {
            Err(head + " has non-canonical tree mode "@ + optional_text_shown(e.mode))
        } else {
            Ok(e)
        }
    } else {
        Err(head + " has unsupported type "@ + e.entry_type@)
    }
}

pub open spec fn restore_step(tree_id: Seq<char>, sizes: Seq<(String, u64)>) -> spec_fn(
    Seq<BinaryTreeEntryView>,
    BinaryTreeEntryView,
) -> Result<Seq<BinaryTreeEntryView>, Seq<char>> {
    |acc: Seq<BinaryTreeEntryView>, e: BinaryTreeEntryView|
        match restored_entry(tree_id, sizes, e) {
            Ok(r) => Ok(acc.push(r)),
            Err(m) => Err(m),
        }
}

/// `e` placed into `sorted` after every entry whose name does not come
/// after its own.
pub open spec fn insert_by_name(sorted: Seq<BinaryTreeEntryView>, e: BinaryTreeEntryView) -> Seq<
    BinaryTreeEntryView,
>
    decreases sorted.len(),
{
    if sorted.len() == 0 {
        seq![e]
    } else if text_lt(e.entry_name@, sorted[0].entry_name@) {
        seq![e] + sorted
    } else {
        seq![sorted[0]] + insert_by_name(sorted.drop_first(), e)
    }
}

/// The entries in name order; entries with equal names keep their order.
pub open spec fn sort_by_name(entries: Seq<BinaryTreeEntryView>) -> Seq<BinaryTreeEntryView>
    decreases entries.len(),
{
    if entries.len() == 0 {
        Seq::empty()
    } else {
        insert_by_name(sort_by_name(entries.drop_last()), entries.last())
    }
}

/// The entries of a retained tree as a repack writes them: each entry
/// restored, all of them in name order, and their identity the tree's own
/// (ignoring ASCII case).
pub open spec fn spec_canonicalize_repacked(
    tree_id: Seq<char>,
    entries: Seq<BinaryTreeEntryView>,
    sizes: Seq<(String, u64)>,
) -> Result<Seq<BinaryTreeEntryView>, Seq<char>> {
    match spec_fold(entries, Seq::empty(), restore_step(tree_id, sizes)) {
        Err(m) => Err(m),
        Ok(restored) => {
            let sorted = sort_by_name(restored);
            match spec_tree_id_of_entries(sorted) {
                Err(m) => Err(m),
                Ok(id) => if ascii_lower_seq(id) == ascii_lower_seq(tree_id) {
                    Ok(sorted)
                } else {
                    Err("retained tree "@ + tree_id + " content restores to different identity "@ + id)
                },
            }
        },
    }
}

fn copy_text(s: &Option<String>) -> (r: Option<String>)
    ensures
        r == *s,
{
    match s {
        Some(t) => Some(t.clone()),
        None => None,
    }
}

fn copy_entry(e: &BinaryTreeEntryView) -> (r: BinaryTreeEntryView)
    ensures
        r == *e,
{
    BinaryTreeEntryView {
        entry_ordinal: e.entry_ordinal,
        entry_name: e.entry_name.clone(),
        entry_type: e.entry_type.clone(),
        target_id: e.target_id.clone(),
        size_bytes: e.size_bytes,
        mode: copy_text(&e.mode),
    }
}

fn lookup_blob_size(rows: &[(String, u64)], blob_id: &Vec<char>) -> (r: Option<u64>)
    ensures
        r == size_of_blob(rows@, blob_id@),
{
    let mut i: usize = 0;
    assert(rows@.subrange(0, rows@.len() as int) =~= rows@);
    while i < rows.len()
        invariant
            i <= rows@.len(),
            size_of_blob(rows@, blob_id@) == size_of_blob(rows@.subrange(i as int, rows@.len() as int), blob_id@),
        decreases rows@.len() - i,
    {
        let key = chars_of(rows[i].0.as_str());
        proof {
            let rest = rows@.subrange(i as int, rows@.len() as int);
            assert(rest.drop_first() =~= rows@.subrange(i + 1, rows@.len() as int));
            assert(rest[0] == rows@[i as int]);
        }
        if crate::text::chars_eq(&key, blob_id) {
            return Some(rows[i].1);
        }
        i = i + 1;
    }
    None
}

fn entry_head(tree_id: &str, name: &str) -> (v: Vec<char>)
    ensures
        v@ == "retained tree "@ + tree_id@ + " entry \""@ + name@ + "\""@,
{
    let mut v = chars_of("retained tree ");
    push_str(&mut v, tree_id);
    push_str(&mut v, " entry \"");
    push_str(&mut v, name);
    push_str(&mut v, "\"");
    v
}

fn restore_entry(tree_id: &str, sizes: &[(String, u64)], e: &BinaryTreeEntryView) -> (r: Result<
    BinaryTreeEntryView,
    String,
>)
    ensures
        match r {
            Ok(v) => restored_entry(tree_id@, sizes@, *e) == Ok::<BinaryTreeEntryView, Seq<char>>(v),
            Err(m) => restored_entry(tree_id@, sizes@, *e) == Err::<BinaryTreeEntryView, Seq<char>>(
                m@,
            ),
        },
{
    let head = entry_head(tree_id, e.entry_name.as_str());
    if str_eq(e.entry_type.as_str(), "blob") {
        let target = chars_of(e.target_id.as_str());
        let lowered = to_ascii_lowercase(&target);
        let n = match lookup_blob_size(sizes, &lowered) {
            Some(n) => n,
            None => {
                let mut v = head;
                push_str(&mut v, " references blob ");
                push_str(&mut v, e.target_id.as_str());
                push_str(&mut v, " outside the retained canonical closure");
                return Err(string_from_chars(&v));
            },
        };
        if let Some(p) = e.size_bytes {
            if p != n {
                let mut v = head;
                push_str(&mut v, " size disagrees with canonical blob ");
                push_str(&mut v, e.target_id.as_str());
                return Err(string_from_chars(&v));
            }
        }
        Ok(
            BinaryTreeEntryView {
                entry_ordinal: e.entry_ordinal,
                entry_name: e.entry_name.clone(),
                entry_type: e.entry_type.clone(),
                target_id: e.target_id.clone(),
                size_bytes: Some(n),
                mode: copy_text(&e.mode),
            },
        )
    } else if str_eq(e.entry_type.as_str(), "tree") {
        if e.size_bytes.is_some() {
            let mut v = head;
            push_str(&mut v, " gives a child tree a byte size");
            return Err(string_from_chars(&v));
        }
        let canonical_mode = match &e.mode {
            Some(m) => str_eq(m.as_str(), "tree"),
            None => false,
        };
        if !canonical_mode {
            let ghost h = head@;
            let mut v = head;
            push_str(&mut v, " has non-canonical tree mode ");
            match &e.mode {
                Some(m) => {
                    push_str(&mut v, "Some(\"");
                    push_str(&mut v, m.as_str());
                    push_str(&mut v, "\")");
                },
                None => push_str(&mut v, "None"),
            }
            assert(v@ =~= h + " has non-canonical tree mode "@ + optional_text_shown(e.mode));
            return Err(string_from_chars(&v));
        }
        Ok(copy_entry(e))
    } else {
        let mut v = head;
        push_str(&mut v, " has unsupported type ");
        push_str(&mut v, e.entry_type.as_str());
        Err(string_from_chars(&v))
    }
}

/// Inserting after the entries that do not come after `e` is `insert_by_name`.
proof fn lemma_insert_by_name_at(sorted: Seq<BinaryTreeEntryView>, e: BinaryTreeEntryView, j: int)
    requires
        0 <= j <= sorted.len(),
        forall|k: int| 0 <= k < j ==> !text_lt(e.entry_name@, #[trigger] sorted[k].entry_name@),
        j < sorted.len() ==> text_lt(e.entry_name@, sorted[j].entry_name@),
    ensures
        insert_by_name(sorted, e) == sorted.insert(j, e),
    decreases sorted.len(),
{
    if sorted.len() == 0 {
        assert(sorted.insert(j, e) =~= seq![e]);
    } else if j == 0 {
        assert(sorted.insert(0, e) =~= seq![e] + sorted);
    } else {
        let rest = sorted.drop_first();
        assert(!text_lt(e.entry_name@, sorted[0].entry_name@));
        assert forall|k: int| 0 <= k < j - 1 implies !text_lt(
            e.entry_name@,
            #[trigger] rest[k].entry_name@,
        ) by {
            assert(rest[k] == sorted[k + 1]);
        }
        if j - 1 < rest.len() {
            assert(rest[j - 1] == sorted[j]);
        }
        lemma_insert_by_name_at(rest, e, j - 1);
        assert(seq![sorted[0]] + rest.insert(j - 1, e) =~= sorted.insert(j, e));
    }
}

/// The entries in name order; entries with equal names keep their order.
pub(crate) fn sorted_by_name(entries: &Vec<BinaryTreeEntryView>) -> (r: Vec<BinaryTreeEntryView>)
    ensures
        r@ == sort_by_name(entries@),
{
    let ghost rs = entries@;
    let mut sorted: Vec<BinaryTreeEntryView> = Vec::new();
    let mut k: usize = 0;
    proof {
        assert(rs.subrange(0, 0) =~= Seq::<BinaryTreeEntryView>::empty());
    }
    while k < entries.len()
        invariant
            rs == entries@,
            k <= rs.len(),
            sorted@ == sort_by_name(rs.subrange(0, k as int)),
        decreases rs.len() - k,
    {
        let e = copy_entry(&entries[k]);
        let mut j: usize = 0;
        while j < sorted.len() && !text_less(e.entry_name.as_str(), sorted[j].entry_name.as_str())
            invariant
                j <= sorted@.len(),
                forall|m: int| 0 <= m < j ==> !text_lt(e.entry_name@, #[trigger] sorted@[m].entry_name@),
            decreases sorted@.len() - j,
        {
            j = j + 1;
        }
        proof {
            lemma_insert_by_name_at(sorted@, e, j as int);
            let p = rs.subrange(0, k + 1);
            assert(p.drop_last() =~= rs.subrange(0, k as int));
            assert(p.last() == rs[k as int]);
        }
        sorted.insert(j, e);
        k = k + 1;
    }
    proof {
        assert(rs.subrange(0, rs.len() as int) =~= rs);
    }
    sorted
}

/// The retained entries of tree `tree_id` as a repack writes them: each blob
/// entry gets the size of its blob from `blob_sizes_by_id` (looked up by the
/// lower-case blob id), the entries are put in name order, and their
/// identity must be the tree's own. Fails at the first entry that cannot be
/// kept, or when the identity differs.
pub fn canonicalize_repacked_tree_entries(
    tree_id: &str,
    entries: Vec<BinaryTreeEntryView>,
    blob_sizes_by_id: &[(String, u64)],
) -> (r: Result<Vec<BinaryTreeEntryView>, String>)
    ensures
        match r {
            Ok(v) => spec_canonicalize_repacked(tree_id@, entries@, blob_sizes_by_id@) == Ok::<
                Seq<BinaryTreeEntryView>,
                Seq<char>,
            >(v@),
            Err(m) => spec_canonicalize_repacked(tree_id@, entries@, blob_sizes_by_id@) == Err::<
                Seq<BinaryTreeEntryView>,
                Seq<char>,
            >(m@),
        },
{
    let ghost es = entries@;
    let ghost step = restore_step(tree_id@, blob_sizes_by_id@);
    let mut restored: Vec<BinaryTreeEntryView> = Vec::new();
    let mut i: usize = 0;
    proof {
        assert(es.subrange(0, 0) =~= Seq::<BinaryTreeEntryView>::empty());
    }
    while i < entries.len()
        invariant
            es == entries@,
            step == restore_step(tree_id@, blob_sizes_by_id@),
            i <= es.len(),
            spec_fold(es.subrange(0, i as int), Seq::empty(), step) == Ok::<
                Seq<BinaryTreeEntryView>,
                Seq<char>,
            >(restored@),
        decreases es.len() - i,
    {
        proof {
            assert(es.subrange(0, i + 1).drop_last() =~= es.subrange(0, i as int));
            assert(es.subrange(0, i + 1).last() == es[i as int]);
        }
        let entry = match restore_entry(tree_id, blob_sizes_by_id, &entries[i]) {
            Ok(entry) => entry,
            Err(m) => {
                proof {
                    crate::json::lemma_fold_error_extends(es, Seq::empty(), step, i + 1, m@);
                }
                return Err(m);
            },
        };
        restored.push(entry);
        i = i + 1;
    }
    proof {
        assert(es.subrange(0, es.len() as int) =~= es);
    }
    let sorted = sorted_by_name(&restored);
    let restored_id = tree_id_from_canonical_entries(sorted.as_slice())?;
    let a = chars_of(restored_id.as_str());
    let b = chars_of(tree_id);
    if !chars_eq_ignore_ascii_case(&a, &b) {
        let mut v = chars_of("retained tree ");
        push_str(&mut v, tree_id);
        push_str(&mut v, " content restores to different identity ");
        push_str(&mut v, restored_id.as_str());
        return Err(string_from_chars(&v));
    }
    Ok(sorted)
}

// ----- canonical entries are stable ---------------------------------------------

proof fn lemma_text_lt_irreflexive(a: Seq<char>)
    ensures
        !text_lt(a, a),
    decreases a.len(),
{
    if a.len() > 0 {
        lemma_text_lt_irreflexive(a.drop_first());
    }
}

proof fn lemma_text_lt_transitive(a: Seq<char>, b: Seq<char>, c: Seq<char>)
    requires
        text_lt(a, b),
        text_lt(b, c),
    ensures
        text_lt(a, c),
    decreases a.len(),
{
    if a.len() > 0 && b.len() > 0 && c.len() > 0 && a[0] == b[0] && b[0] == c[0] {
        lemma_text_lt_transitive(a.drop_first(), b.drop_first(), c.drop_first());
    }
}

/// No entry's name comes before that of an entry ahead of it.
pub open spec fn in_name_order(s: Seq<BinaryTreeEntryView>) -> bool {
    forall|i: int, j: int|
        0 <= i < j < s.len() ==> !text_lt(#[trigger] s[j].entry_name@, #[trigger] s[i].entry_name@)
}

/// No entry's name comes before `bound`.
pub open spec fn names_from(s: Seq<BinaryTreeEntryView>, bound: Seq<char>) -> bool {
    forall|k: int| 0 <= k < s.len() ==> !text_lt(#[trigger] s[k].entry_name@, bound)
}

proof fn lemma_insert_names_from(s: Seq<BinaryTreeEntryView>, p: BinaryTreeEntryView, bound: Seq<char>)
    requires
        names_from(s, bound),
        !text_lt(p.entry_name@, bound),
    ensures
        names_from(insert_by_name(s, p), bound),
        insert_by_name(s, p).len() == s.len() + 1,
    decreases s.len(),
{
    if s.len() > 0 && !text_lt(p.entry_name@, s[0].entry_name@) {
        let rest = s.drop_first();
        assert(names_from(rest, bound)) by {
            assert forall|k: int| 0 <= k < rest.len() implies !text_lt(
                #[trigger] rest[k].entry_name@,
                bound,
            ) by {
                assert(rest[k] == s[k + 1]);
            }
        }
        lemma_insert_names_from(rest, p, bound);
        let out = insert_by_name(s, p);
        let tail = insert_by_name(rest, p);
        assert forall|k: int| 0 <= k < out.len() implies !text_lt(#[trigger] out[k].entry_name@, bound) by {
            if k > 0 {
                assert(out[k] == tail[k - 1]);
            }
        }
    }
}

proof fn lemma_insert_in_name_order(s: Seq<BinaryTreeEntryView>, p: BinaryTreeEntryView)
    requires
        in_name_order(s),
    ensures
        in_name_order(insert_by_name(s, p)),
    decreases s.len(),
{
    let out = insert_by_name(s, p);
    if s.len() == 0 {
    } else if text_lt(p.entry_name@, s[0].entry_name@) {
        assert forall|i: int, j: int| 0 <= i < j < out.len() implies !text_lt(
            #[trigger] out[j].entry_name@,
            #[trigger] out[i].entry_name@,
        ) by {
            if i == 0 {
                assert(out[j] == s[j - 1]);
                if text_lt(s[j - 1].entry_name@, p.entry_name@) {
                    lemma_text_lt_transitive(s[j - 1].entry_name@, p.entry_name@, s[0].entry_name@);
                    if j - 1 == 0 {
                        lemma_text_lt_irreflexive(s[0].entry_name@);
                    }
                }
            } else {
                assert(out[i] == s[i - 1]);
                assert(out[j] == s[j - 1]);
            }
        }
    } else {
        let rest = s.drop_first();
        let tail = insert_by_name(rest, p);
        assert(in_name_order(rest)) by {
            assert forall|i: int, j: int| 0 <= i < j < rest.len() implies !text_lt(
                #[trigger] rest[j].entry_name@,
                #[trigger] rest[i].entry_name@,
            ) by {
                assert(rest[i] == s[i + 1]);
                assert(rest[j] == s[j + 1]);
            }
        }
        assert(names_from(rest, s[0].entry_name@)) by {
            assert forall|k: int| 0 <= k < rest.len() implies !text_lt(
                #[trigger] rest[k].entry_name@,
                s[0].entry_name@,
            ) by {
                assert(rest[k] == s[k + 1]);
            }
        }
        lemma_insert_in_name_order(rest, p);
        lemma_insert_names_from(rest, p, s[0].entry_name@);
        assert forall|i: int, j: int| 0 <= i < j < out.len() implies !text_lt(
            #[trigger] out[j].entry_name@,
            #[trigger] out[i].entry_name@,
        ) by {
            assert(out[j] == tail[j - 1]);
            if i > 0 {
                assert(out[i] == tail[i - 1]);
            }
        }
    }
}

proof fn lemma_sort_in_name_order(s: Seq<BinaryTreeEntryView>)
    ensures
        in_name_order(sort_by_name(s)),
        sort_by_name(s).len() == s.len(),
    decreases s.len(),
{
    if s.len() > 0 {
        lemma_sort_in_name_order(s.drop_last());
        lemma_insert_in_name_order(sort_by_name(s.drop_last()), s.last());
        lemma_insert_length(sort_by_name(s.drop_last()), s.last());
    }
}

proof fn lemma_insert_length(s: Seq<BinaryTreeEntryView>, p: BinaryTreeEntryView)
    ensures
        insert_by_name(s, p).len() == s.len() + 1,
    decreases s.len(),
{
    if s.len() > 0 {
        lemma_insert_length(s.drop_first(), p);
    }
}

/// An entry that no entry of `s` comes after goes at the end.
proof fn lemma_insert_last(s: Seq<BinaryTreeEntryView>, p: BinaryTreeEntryView)
    requires
        forall|k: int| 0 <= k < s.len() ==> !text_lt(p.entry_name@, #[trigger] s[k].entry_name@),
    ensures
        insert_by_name(s, p) == s.push(p),
    decreases s.len(),
{
    if s.len() == 0 {
        assert(s.push(p) =~= seq![p]);
    } else {
        let rest = s.drop_first();
        assert forall|k: int| 0 <= k < rest.len() implies !text_lt(
            p.entry_name@,
            #[trigger] rest[k].entry_name@,
        ) by {
            assert(rest[k] == s[k + 1]);
        }
        lemma_insert_last(rest, p);
        assert(seq![s[0]] + rest.push(p) =~= s.push(p));
    }
}

proof fn lemma_sort_of_ordered(s: Seq<BinaryTreeEntryView>)
    requires
        in_name_order(s),
    ensures
        sort_by_name(s) == s,
    decreases s.len(),
{
    if s.len() > 0 {
        let init = s.drop_last();
        assert(in_name_order(init)) by {
            assert forall|i: int, j: int| 0 <= i < j < init.len() implies !text_lt(
                #[trigger] init[j].entry_name@,
                #[trigger] init[i].entry_name@,
            ) by {
                assert(init[i] == s[i]);
                assert(init[j] == s[j]);
            }
        }
        lemma_sort_of_ordered(init);
        assert forall|k: int| 0 <= k < init.len() implies !text_lt(
            s.last().entry_name@,
            #[trigger] init[k].entry_name@,
        ) by {
            assert(init[k] == s[k]);
        }
        lemma_insert_last(init, s.last());
        assert(init.push(s.last()) =~= s);
    }
}

/// An entry that restores to itself.
pub open spec fn restores_to_itself(tree_id: Seq<char>, sizes: Seq<(String, u64)>, e: BinaryTreeEntryView) -> bool {
    restored_entry(tree_id, sizes, e) == Ok::<BinaryTreeEntryView, Seq<char>>(e)
}

proof fn lemma_restored_restores_to_itself(tree_id: Seq<char>, sizes: Seq<(String, u64)>, e: BinaryTreeEntryView)
    requires
        restored_entry(tree_id, sizes, e) is Ok,
    ensures
        restores_to_itself(tree_id, sizes, restored_entry(tree_id, sizes, e)->Ok_0),
{
}

proof fn lemma_fold_restores_to_itself(tree_id: Seq<char>, sizes: Seq<(String, u64)>, s: Seq<BinaryTreeEntryView>)
    requires
        spec_fold(s, Seq::empty(), restore_step(tree_id, sizes)) is Ok,
    ensures
        forall|k: int|
            0 <= k < spec_fold(s, Seq::empty(), restore_step(tree_id, sizes))->Ok_0.len()
                ==> restores_to_itself(
                tree_id,
                sizes,
                #[trigger] spec_fold(s, Seq::empty(), restore_step(tree_id, sizes))->Ok_0[k],
            ),
    decreases s.len(),
{
    if s.len() > 0 {
        let prev = spec_fold(s.drop_last(), Seq::empty(), restore_step(tree_id, sizes));
        lemma_fold_restores_to_itself(tree_id, sizes, s.drop_last());
        let out = spec_fold(s, Seq::empty(), restore_step(tree_id, sizes))->Ok_0;
        lemma_restored_restores_to_itself(tree_id, sizes, s.last());
        assert forall|k: int| 0 <= k < out.len() implies restores_to_itself(
            tree_id,
            sizes,
            #[trigger] out[k],
        ) by {
            if k < prev->Ok_0.len() {
                assert(out[k] == prev->Ok_0[k]);
            }
        }
    }
}

proof fn lemma_fold_of_self_restoring(tree_id: Seq<char>, sizes: Seq<(String, u64)>, s: Seq<BinaryTreeEntryView>)
    requires
        forall|k: int| 0 <= k < s.len() ==> restores_to_itself(tree_id, sizes, #[trigger] s[k]),
    ensures
        spec_fold(s, Seq::empty(), restore_step(tree_id, sizes)) == Ok::<
            Seq<BinaryTreeEntryView>,
            Seq<char>,
        >(s),
    decreases s.len(),
{
    if s.len() > 0 {
        let init = s.drop_last();
        assert forall|k: int| 0 <= k < init.len() implies restores_to_itself(
            tree_id,
            sizes,
            #[trigger] init[k],
        ) by {
            assert(init[k] == s[k]);
        }
        lemma_fold_of_self_restoring(tree_id, sizes, init);
        assert(restores_to_itself(tree_id, sizes, s[s.len() - 1]));
        assert(init.push(s.last()) =~= s);
        assert((restore_step(tree_id, sizes))(init, s.last()) == Ok::<
            Seq<BinaryTreeEntryView>,
            Seq<char>,
        >(init.push(s.last())));
    } else {
        assert(s =~= Seq::<BinaryTreeEntryView>::empty());
    }
}

/// Every entry of `s` (and `p`) having a property, so does every entry of
/// `insert_by_name(s, p)`.
proof fn lemma_insert_keeps(s: Seq<BinaryTreeEntryView>, p: BinaryTreeEntryView, keep: spec_fn(BinaryTreeEntryView) -> bool)
    requires
        forall|k: int| 0 <= k < s.len() ==> keep(#[trigger] s[k]),
        keep(p),
    ensures
        forall|k: int|
            0 <= k < insert_by_name(s, p).len() ==> keep(#[trigger] insert_by_name(s, p)[k]),
    decreases s.len(),
{
    if s.len() > 0 && !text_lt(p.entry_name@, s[0].entry_name@) {
        let rest = s.drop_first();
        assert forall|k: int| 0 <= k < rest.len() implies keep(#[trigger] rest[k]) by {
            assert(rest[k] == s[k + 1]);
        }
        lemma_insert_keeps(rest, p, keep);
        let out = insert_by_name(s, p);
        let tail = insert_by_name(rest, p);
        assert forall|k: int| 0 <= k < out.len() implies keep(#[trigger] out[k]) by {
            if k > 0 {
                assert(out[k] == tail[k - 1]);
            }
        }
    } else if s.len() > 0 {
        let out = insert_by_name(s, p);
        assert forall|k: int| 0 <= k < out.len() implies keep(#[trigger] out[k]) by {
            if k > 0 {
                assert(out[k] == s[k - 1]);
            }
        }
    }
}

proof fn lemma_sort_keeps(s: Seq<BinaryTreeEntryView>, keep: spec_fn(BinaryTreeEntryView) -> bool)
    requires
        forall|k: int| 0 <= k < s.len() ==> keep(#[trigger] s[k]),
    ensures
        forall|k: int| 0 <= k < sort_by_name(s).len() ==> keep(#[trigger] sort_by_name(s)[k]),
    decreases s.len(),
{
    if s.len() > 0 {
        let init = s.drop_last();
        assert forall|k: int| 0 <= k < init.len() implies keep(#[trigger] init[k]) by {
            assert(init[k] == s[k]);
        }
        lemma_sort_keeps(init, keep);
        lemma_insert_keeps(sort_by_name(init), s.last(), keep);
    }
}

/// The entries a repack writes for a retained tree are in name order, and
/// they are a fixed point: canonicalizing them again with the same blob
/// sizes gives them back unchanged.
pub proof fn law_canonical_entries_are_stable(
    tree_id: Seq<char>,
    entries: Seq<BinaryTreeEntryView>,
    sizes: Seq<(String, u64)>,
)
    requires
        spec_canonicalize_repacked(tree_id, entries, sizes) is Ok,
    ensures
        in_name_order(spec_canonicalize_repacked(tree_id, entries, sizes)->Ok_0),
        spec_canonicalize_repacked(tree_id, spec_canonicalize_repacked(tree_id, entries, sizes)->Ok_0, sizes)
            == spec_canonicalize_repacked(tree_id, entries, sizes),
{
    let restored = spec_fold(entries, Seq::empty(), restore_step(tree_id, sizes))->Ok_0;
    let sorted = sort_by_name(restored);
    lemma_sort_in_name_order(restored);
    lemma_fold_restores_to_itself(tree_id, sizes, entries);
    let keep = |e: BinaryTreeEntryView| restores_to_itself(tree_id, sizes, e);
    assert forall|k: int| 0 <= k < restored.len() implies keep(#[trigger] restored[k]) by {
        assert(restores_to_itself(tree_id, sizes, restored[k]));
    }
    lemma_sort_keeps(restored, keep);
    assert forall|k: int| 0 <= k < sorted.len() implies restores_to_itself(
        tree_id,
        sizes,
        #[trigger] sorted[k],
    ) by {
        assert(keep(sorted[k]));
    }
    lemma_fold_of_self_restoring(tree_id, sizes, sorted);
    lemma_sort_of_ordered(sorted);
}

} // verus!
