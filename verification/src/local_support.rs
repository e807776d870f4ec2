//! Small helpers of the local content adapter and of capture: required
//! text, typed members of JSON objects, and 48-bit hashes derived from a
//! seed.

use vstd::prelude::*;

use crate::digest::{sha256_digest, spec_sha256};
use crate::ids::{be_value, be_value_of};
use crate::json::{view_get, JsonNumber, JsonValue, JsonView};
use crate::text::{cat2, cat3, is_ascii_digit, normalize_optional_text, spec_normalize_text};

verus! {

/// `value` trimmed; blank text is refused with `<field> must not be empty`.
pub fn require_non_empty(value: &str, field: &str) -> (r: Result<String, String>)
    ensures
        match r {
            Ok(t) => spec_normalize_text(value@) == Some(t@),
            Err(e) => spec_normalize_text(value@) is None && e@ == field@ + " must not be empty"@,
        },
{
    match normalize_optional_text(Some(value)) {
        Some(t) => Ok(t),
        None => Err(cat2(field, " must not be empty")),
    }
}

/// The string member `field` of an object.
pub fn json_string_field(value: &JsonValue, field: &str) -> (r: Result<String, String>)
    ensures
        match r {
            Ok(s) => view_get(value.jv(), field@) == Some(JsonView::Str(s@)),
            Err(e) => !(view_get(value.jv(), field@) matches Some(JsonView::Str(_))) && e@
                == "Expected string field `"@ + field@ + "`."@,
        },
{
    match value.get(field) {
        Some(JsonValue::String(s)) => Ok(s.clone()),
        _ => Err(cat3("Expected string field `", field, "`.")),
    }
}

/// The integer member `field` of an object, when it fits in `i64`.
pub fn json_i64_field(value: &JsonValue, field: &str) -> (r: Result<i64, String>)
    ensures
        match r {
            Ok(i) => view_get(value.jv(), field@) == Some(JsonView::Int(i)),
            Err(e) => !(view_get(value.jv(), field@) matches Some(JsonView::Int(_))) && e@
                == "Expected integer field `"@ + field@ + "`."@,
        },
{
    match value.get(field) {
        Some(JsonValue::Number(JsonNumber::Int(i))) => Ok(*i),
        _ => Err(cat3("Expected integer field `", field, "`.")),
    }
}

/// The value of a run of decimal digits.
pub open spec fn digits_value(t: Seq<char>) -> nat
    decreases t.len(),
{
    if t.len() == 0 {
        0
    } else {
        (digits_value(t.drop_last()) * 10 + (t.last() as int - '0' as int)) as nat
    }
}

/// A JSON number as a `u64`: a non-negative integer that fits.
pub open spec fn spec_json_as_u64(v: JsonView) -> Option<u64> {
    match v {
        JsonView::Int(i) => if i >= 0 {
            Some(i as u64)
        } else {
            None
        },
        JsonView::OtherNumber(t) => if t.len() > 0 && (forall|k: int|
            0 <= k < t.len() ==> is_ascii_digit(#[trigger] t[k])) && digits_value(t) <= u64::MAX {
            Some(digits_value(t) as u64)
        } else {
            None
        },
        _ => None,
    }
}

fn digits_as_u64(t: &String) -> (r: Option<u64>)
    ensures
        r == (if t@.len() > 0 && (forall|k: int| 0 <= k < t@.len() ==> is_ascii_digit(#[trigger] t@[k]))
            && digits_value(t@) <= u64::MAX {
            Some(digits_value(t@) as u64)
        } else {
            None
        }),
{
    let chars = crate::text::chars_of(t.as_str());
    let ghost s = t@;
    if chars.len() == 0 {
        return None;
    }
    let mut acc: u64 = 0;
    let mut i: usize = 0;
    while i < chars.len()
        invariant
            chars@ == s,
            s == t@,
            i <= s.len(),
            forall|k: int| 0 <= k < i ==> is_ascii_digit(#[trigger] s[k]),
            acc == digits_value(s.subrange(0, i as int)),
        decreases s.len() - i,
    {
        let c = chars[i];
        if !('0' <= c && c <= '9') {
            assert(!is_ascii_digit(s[i as int]));
            return None;
        }
        let d = (c as u32 - '0' as u32) as u64;
        proof {
            let p = s.subrange(0, i + 1);
            assert(p.drop_last() =~= s.subrange(0, i as int));
            assert(p.last() == c);
        }
        if acc > (u64::MAX - d) / 10 {
            proof {
                let p = s.subrange(0, i + 1);
                assert(digits_value(p) == acc * 10 + d);
                assert(acc * 10 + d > u64::MAX) by (nonlinear_arith)
                    requires
                        acc > (u64::MAX - d) / 10,
                        d <= 9,
                ;
                lemma_digits_value_grows(s, i as int + 1);
                assert(digits_value(s.subrange(0, i + 1)) > u64::MAX);
            }
            return None;
        }
        assert(acc * 10 + d <= u64::MAX) by (nonlinear_arith)
            requires
                acc <= (u64::MAX - d) / 10,
                d <= 9,
        ;
        acc = acc * 10 + d;
        i = i + 1;
    }
    assert(s.subrange(0, s.len() as int) =~= s);
    Some(acc)
}

/// The value of a run of digits never falls when more digits follow.
proof fn lemma_digits_value_grows(s: Seq<char>, n: int)
    requires
        0 <= n <= s.len(),
        forall|k: int| 0 <= k < s.len() && is_ascii_digit(s[k]) ==> '0' <= #[trigger] s[k] <= '9',
    ensures
        (forall|k: int| 0 <= k < s.len() ==> is_ascii_digit(#[trigger] s[k])) ==> digits_value(s)
            >= digits_value(s.subrange(0, n)),
    decreases s.len() - n,
{
    if n < s.len() && (forall|k: int| 0 <= k < s.len() ==> is_ascii_digit(#[trigger] s[k])) {
        lemma_digits_value_grows(s, n + 1);
        let p = s.subrange(0, n + 1);
        assert(p.drop_last() =~= s.subrange(0, n));
        assert(is_ascii_digit(s[n]));
        assert(digits_value(p) >= digits_value(s.subrange(0, n))) by (nonlinear_arith)
            requires
                digits_value(p) == digits_value(s.subrange(0, n)) * 10 + (s[n] as int - '0' as int),
                s[n] as int >= '0' as int,
        ;
    }
    if n == s.len() {
        assert(s.subrange(0, n) =~= s);
    }
}

/// A JSON value as a `u64`, when it is a non-negative integer that fits.
pub fn json_as_u64(value: &JsonValue) -> (r: Option<u64>)
    ensures
        r == spec_json_as_u64(value.jv()),
{
    match value {
        JsonValue::Number(JsonNumber::Int(i)) => if *i >= 0 {
            Some(*i as u64)
        } else {
            None
        },
        JsonValue::Number(JsonNumber::Other(t)) => digits_as_u64(t),
        _ => None,
    }
}

/// The member `field` of pack archive statistics as a `u64`.
pub fn required_json_u64(value: &JsonValue, field: &str) -> (r: Result<u64, String>)
    ensures
        match r {
            Ok(n) => view_get(value.jv(), field@) matches Some(v) && spec_json_as_u64(v) == Some(n),
            Err(e) => !(view_get(value.jv(), field@) matches Some(v) && spec_json_as_u64(v) is Some)
                && e@ == "pack archive stats are missing integer "@ + field@,
        },
{
    let found = match value.get(field) {
        Some(v) => json_as_u64(v),
        None => None,
    };
    match found {
        Some(n) => Ok(n),
        None => Err(cat2("pack archive stats are missing integer ", field)),
    }
}

/// The string member `field` of pack archive statistics.
pub fn required_json_text(value: &JsonValue, field: &str) -> (r: Result<String, String>)
    ensures
        match r {
            Ok(s) => view_get(value.jv(), field@) == Some(JsonView::Str(s@)),
            Err(e) => !(view_get(value.jv(), field@) matches Some(JsonView::Str(_))) && e@
                == "pack archive stats are missing text "@ + field@,
        },
{
    match value.get(field) {
        Some(JsonValue::String(s)) => Ok(s.clone()),
        _ => Err(cat2("pack archive stats are missing text ", field)),
    }
}

/// A 48-bit hash of `seed`: the first six bytes of its SHA-256,
/// big-endian.
pub fn hash48_from_seed(seed: &[u8]) -> (h: u64)
    ensures
        h == be_value(spec_sha256(seed@).subrange(0, 6)),
{
    let digest = sha256_digest(seed);
    let mut head: Vec<u8> = Vec::new();
    let mut k: usize = 0;
    while k < 6
        invariant
            digest@.len() == 32,
            k <= 6,
            head@ == digest@.subrange(0, k as int),
        decreases 6 - k,
    {
        head.push(digest[k]);
        k = k + 1;
        assert(head@ =~= digest@.subrange(0, k as int));
    }
    be_value_of(&head)
}

} // verus!
