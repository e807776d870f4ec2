//! Textual rules on the files of a generation: canonical pack paths and
//! hex SHA-256 digests.

use vstd::prelude::*;

use crate::text::{chars_of, spec_strip_prefix, strip_prefix_chars};

verus! {

/// `0`-`9` or `A`-`F`.
pub open spec fn is_upper_hex(c: char) -> bool {
    ('0' <= c && c <= '9') || ('A' <= c && c <= 'F')
}

/// `0`-`9` or `a`-`f`.
pub open spec fn is_lower_hex(c: char) -> bool {
    ('0' <= c && c <= '9') || ('a' <= c && c <= 'f')
}

/// A lower-case hex SHA-256 digest: exactly 64 lower-case hex digits.
pub open spec fn spec_is_sha256(value: Seq<char>) -> bool {
    value.len() == 64 && forall|i: int| 0 <= i < value.len() ==> is_lower_hex(#[trigger] value[i])
}

pub fn is_sha256(value: &str) -> (r: bool)
    ensures
        r == spec_is_sha256(value@),
{
    let chars = chars_of(value);
    if chars.len() != 64 {
        return false;
    }
    let mut i: usize = 0;
    while i < chars.len()
        invariant
            chars@ == value@,
            i <= chars@.len(),
            forall|j: int| 0 <= j < i ==> is_lower_hex(#[trigger] chars@[j]),
        decreases chars@.len() - i,
    {
        let c = chars[i];
        if !(('0' <= c && c <= '9') || ('a' <= c && c <= 'f')) {
            return false;
        }
        i = i + 1;
    }
    true
}

/// `s` without `suffix` when it ends with it.
pub open spec fn spec_strip_suffix(s: Seq<char>, suffix: Seq<char>) -> Option<Seq<char>> {
    if suffix.len() <= s.len() && s.subrange(s.len() - suffix.len(), s.len() as int) == suffix {
        Some(s.subrange(0, s.len() - suffix.len()))
    } else {
        None
    }
}

pub(crate) fn strip_suffix_chars(s: &Vec<char>, suffix: &str) -> (r: Option<Vec<char>>)
    ensures
        r matches Some(v) ==> spec_strip_suffix(s@, suffix@) == Some(v@),
        r is None ==> spec_strip_suffix(s@, suffix@) is None,
{
    let x = chars_of(suffix);
    if x.len() > s.len() {
        return None;
    }
    let base = s.len() - x.len();
    let mut i: usize = 0;
    while i < x.len()
        invariant
            x@ == suffix@,
            x.len() <= s.len(),
            base == s.len() - x.len(),
            i <= x.len(),
            forall|k: int| 0 <= k < i ==> s@[base + k] == x@[k],
        decreases x.len() - i,
    {
        if s[base + i] != x[i] {
            proof {
                assert(s@.subrange(base as int, s@.len() as int)[i as int] != x@[i as int]);
            }
            return None;
        }
        i = i + 1;
    }
    assert(s@.subrange(base as int, s@.len() as int) =~= x@);
    let mut out: Vec<char> = Vec::new();
    let mut j: usize = 0;
    while j < base
        invariant
            base <= s.len(),
            j <= base,
            out@ == s@.subrange(0, j as int),
        decreases base - j,
    {
        out.push(s[j]);
        j = j + 1;
        assert(out@ =~= s@.subrange(0, j as int));
    }
    Some(out)
}

/// A pack file name: the id prefix, twelve upper-case hex digits,
/// `.zstpack`.
pub open spec fn spec_is_canonical_pack_name(name: Seq<char>, id_prefix: Seq<char>) -> bool {
    match spec_strip_suffix(name, ".zstpack"@) {
        None => false,
        Some(id) => match spec_strip_prefix(id, id_prefix) {
            None => false,
            Some(hex) => hex.len() == 12 && forall|i: int|
                0 <= i < hex.len() ==> is_upper_hex(#[trigger] hex[i]),
        },
    }
}

/// The path of a canonical pack below `.ait/objects/`: an object pack
/// under `packs/` or a tree pack under `tree-packs/`.
pub open spec fn spec_is_canonical_pack_path(value: Seq<char>) -> bool {
    match spec_strip_prefix(value, "packs/"@) {
        Some(name) => spec_is_canonical_pack_name(name, "PCK-"@),
        None => match spec_strip_prefix(value, "tree-packs/"@) {
            Some(name) => spec_is_canonical_pack_name(name, "TPK-"@),
            None => false,
        },
    }
}

pub fn is_canonical_pack_path(value: &str) -> (r: bool)
    ensures
        r == spec_is_canonical_pack_path(value@),
{
    let chars = chars_of(value);
    let (name, id_prefix): (Vec<char>, &str) = match strip_prefix_chars(&chars, "packs/") {
        Some(name) => (name, "PCK-"),
        None => match strip_prefix_chars(&chars, "tree-packs/") {
            Some(name) => (name, "TPK-"),
            None => return false,
        },
    };
    let id = match strip_suffix_chars(&name, ".zstpack") {
        Some(id) => id,
        None => return false,
    };
    let hex = match strip_prefix_chars(&id, id_prefix) {
        Some(hex) => hex,
        None => return false,
    };
    if hex.len() != 12 {
        return false;
    }
    assert(spec_is_canonical_pack_name(name@, id_prefix@) == (forall|j: int|
        0 <= j < hex@.len() ==> is_upper_hex(#[trigger] hex@[j])));
    let mut i: usize = 0;
    while i < hex.len()
        invariant
            spec_is_canonical_pack_path(value@) == spec_is_canonical_pack_name(name@, id_prefix@),
            spec_is_canonical_pack_name(name@, id_prefix@) == (forall|j: int|
                0 <= j < hex@.len() ==> is_upper_hex(#[trigger] hex@[j])),
            i <= hex@.len(),
            forall|j: int| 0 <= j < i ==> is_upper_hex(#[trigger] hex@[j]),
        decreases hex@.len() - i,
    {
        let c = hex[i];
        if !(('0' <= c && c <= '9') || ('A' <= c && c <= 'F')) {
            return false;
        }
        i = i + 1;
    }
    true
}

} // verus!
