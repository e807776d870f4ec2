//! Textual identifiers of content objects (`BLB-`, `TRE-`, `PCK-`, `TPK-`,
//! `SNP-`) and the fixed index keys derived from them.

use vstd::prelude::*;
use vstd::utf8::{encode_utf8, is_ascii_chars, is_ascii_chars_encode_utf8};

use crate::error::{BinaryDbError, BinaryDbErrorKind, StoreResult};
use crate::text::{
    lemma_hex_shape, lemma_trim_noop, spec_char_is_whitespace,
    ascii_lower, ascii_lower_seq, chars_eq_ignore_ascii_case, chars_of, hex_digit_lower,
    hex_digit_upper, hex_lower_chars, hex_upper_chars, push_all, push_decimal, push_str,
    spec_decimal, spec_hex_lower,
    spec_hex_upper, spec_trim, string_from_chars, trim_str,
};

verus! {

/// Upper-case hex digits of `n`, zero-padded to at least `width` digits.
pub open spec fn spec_upper_hex_padded(n: nat, width: nat) -> Seq<char>
    decreases n + width,
{
    if n < 16 && width <= 1 {
        seq![hex_digit_upper(n)]
    } else {
        let w: nat = if width > 0 {
            (width - 1) as nat
        } else {
            0
        };
        spec_upper_hex_padded(n / 16, w).push(hex_digit_upper(n % 16))
    }
}

fn upper_hex_padded(n: u64, width: u64) -> (v: Vec<char>)
    ensures
        v@ == spec_upper_hex_padded(n as nat, width as nat),
    decreases n + width,
{
    if n < 16 && width <= 1 {
        let mut v = Vec::new();
        v.push(hex_char_upper((n % 16) as u8));
        v
    } else {
        let w = if width > 0 {
            width - 1
        } else {
            0
        };
        let mut v = upper_hex_padded(n / 16, w);
        v.push(hex_char_upper((n % 16) as u8));
        v
    }
}

fn hex_char_upper(d: u8) -> (c: char)
    requires
        d < 16,
    ensures
        c == hex_digit_upper(d as nat),
{
    if d < 10 {
        (d + 48) as char
    } else {
        (d + 55) as char
    }
}

/// `prefix` followed by the padded upper-case hex of `hash48`.
pub open spec fn spec_hash48_id(prefix: Seq<char>, hash48: u64) -> Seq<char> {
    prefix + spec_upper_hex_padded(hash48 as nat, 12)
}

fn hash48_id(prefix: &str, hash48: u64) -> (s: String)
    ensures
        s@ == spec_hash48_id(prefix@, hash48),
{
    let mut v = chars_of(prefix);
    let h = upper_hex_padded(hash48, 12);
    push_all(&mut v, &h);
    string_from_chars(&v)
}

/// `BLB-` and the lower-case hex of the first 10 digest bytes.
pub open spec fn spec_blob_id(sha256: Seq<u8>) -> Seq<char> {
    "BLB-"@ + spec_hex_lower(sha256.subrange(0, 10))
}

/// `TRE-` and the upper-case hex of the 80-bit tree hash.
pub open spec fn spec_tree_id(hash80: Seq<u8>) -> Seq<char> {
    "TRE-"@ + spec_hex_upper(hash80)
}

pub fn blob_id_from_sha256(sha256: &[u8; 32]) -> (s: String)
    ensures
        s@ == spec_blob_id(sha256@),
{
    let head = vstd::slice::slice_subrange(sha256.as_slice(), 0, 10);
    let mut v = chars_of("BLB-");
    let h = hex_lower_chars(head);
    push_all(&mut v, &h);
    string_from_chars(&v)
}

pub fn tree_id_from_hash80(hash80: &[u8; 10]) -> (s: String)
    ensures
        s@ == spec_tree_id(hash80@),
{
    let mut v = chars_of("TRE-");
    let h = hex_upper_chars(hash80.as_slice());
    push_all(&mut v, &h);
    string_from_chars(&v)
}

pub fn object_pack_id_from_hash48(hash48: u64) -> (s: String)
    ensures
        s@ == spec_hash48_id("PCK-"@, hash48),
{
    hash48_id("PCK-", hash48)
}

pub fn tree_pack_id_from_hash48(hash48: u64) -> (s: String)
    ensures
        s@ == spec_hash48_id("TPK-"@, hash48),
{
    hash48_id("TPK-", hash48)
}

pub fn snapshot_id_from_hash48(hash48: u64) -> (s: String)
    ensures
        s@ == spec_hash48_id("SNP-"@, hash48),
{
    hash48_id("SNP-", hash48)
}

// ----- parsing ------------------------------------------------------------

pub open spec fn is_hex_char(c: char) -> bool {
    ('0' <= c && c <= '9') || ('a' <= c && c <= 'f') || ('A' <= c && c <= 'F')
}

pub open spec fn hex_value(c: char) -> nat {
    if '0' <= c && c <= '9' {
        (c as nat - 48) as nat
    } else if 'a' <= c && c <= 'f' {
        (c as nat - 87) as nat
    } else {
        (c as nat - 55) as nat
    }
}

/// The key bytes of an identifier `prefix` + `2n` hex digits, compared
/// case-insensitively and after trimming white space.
pub open spec fn spec_parse_prefixed_hex(value: Seq<char>, prefix: Seq<char>, n: nat) -> Option<
    Seq<u8>,
> {
    let t = spec_trim(value);
    if t.len() < prefix.len() || ascii_lower_seq(t.subrange(0, prefix.len() as int))
        != ascii_lower_seq(prefix) {
        None
    } else {
        let h = t.subrange(prefix.len() as int, t.len() as int);
        if h.len() != 2 * n {
            None
        } else if exists|i: int| 0 <= i < h.len() && !is_hex_char(#[trigger] h[i]) {
            None
        } else {
            Some(
                Seq::new(n, |i: int| (hex_value(h[2 * i]) * 16 + hex_value(h[2 * i + 1])) as u8),
            )
        }
    }
}

/// Why an identifier is refused: a wrong prefix, a wrong number of digit
/// bytes (the UTF-8 length of the rest, as `str::len` gives it), or a
/// character that is not a hex digit.
pub open spec fn spec_prefixed_hex_error(value: Seq<char>, prefix: Seq<char>, n: nat) -> Seq<char> {
    let t = spec_trim(value);
    if t.len() < prefix.len() || ascii_lower_seq(t.subrange(0, prefix.len() as int))
        != ascii_lower_seq(prefix) {
        "id `"@ + t + "` must start with "@ + prefix
    } else {
        let h = t.subrange(prefix.len() as int, t.len() as int);
        if (encode_utf8(h).len() as usize) != 2 * n {
            "id `"@ + t + "` has "@ + spec_decimal((encode_utf8(h).len() as usize) as nat)
                + " hex chars, expected "@ + spec_decimal(2 * n)
        } else {
            "invalid hex id `"@ + t + "`"@
        }
    }
}

fn hex_nibble(c: char) -> (r: Option<u8>)
    ensures
        r is Some <==> is_hex_char(c),
        r matches Some(v) ==> v as nat == hex_value(c) && v < 16,
{
    if '0' <= c && c <= '9' {
        Some((c as u8) - 48)
    } else if 'a' <= c && c <= 'f' {
        Some((c as u8) - 87)
    } else if 'A' <= c && c <= 'F' {
        Some((c as u8) - 55)
    } else {
        None
    }
}

fn parse_prefixed_hex(value: &str, prefix: &str, n: usize) -> (r: StoreResult<Vec<u8>>)
    requires
        n <= 32,
    ensures
        r is Ok <==> spec_parse_prefixed_hex(value@, prefix@, n as nat) is Some,
        r matches Ok(bytes) ==> bytes@ == spec_parse_prefixed_hex(value@, prefix@, n as nat)->0,
        r matches Err(e) ==> e.kind == BinaryDbErrorKind::Invalid && e.message@
            == spec_prefixed_hex_error(value@, prefix@, n as nat),
{
    let t = trim_str(value);
    let p = chars_of(prefix);
    if t.len() < p.len() {
        let mut v = chars_of("id `");
        push_all(&mut v, &t);
        push_str(&mut v, "` must start with ");
        push_str(&mut v, prefix);
        return Err(BinaryDbError::new(BinaryDbErrorKind::Invalid, string_from_chars(&v)));
    }
    let mut head: Vec<char> = Vec::new();
    let mut i: usize = 0;
    while i < p.len()
        invariant
            i <= p.len() <= t.len(),
            head@ == t@.subrange(0, i as int),
        decreases p.len() - i,
    {
        head.push(t[i]);
        i = i + 1;
        assert(head@ =~= t@.subrange(0, i as int));
    }
    if !chars_eq_ignore_ascii_case(&head, &p) {
        let mut v = chars_of("id `");
        push_all(&mut v, &t);
        push_str(&mut v, "` must start with ");
        push_str(&mut v, prefix);
        return Err(BinaryDbError::new(BinaryDbErrorKind::Invalid, string_from_chars(&v)));
    }
    let ghost h = t@.subrange(p@.len() as int, t@.len() as int);
    let mut hv: Vec<char> = Vec::new();
    let mut j: usize = p.len();
    while j < t.len()
        invariant
            p.len() <= j <= t.len(),
            hv@ == t@.subrange(p@.len() as int, j as int),
        decreases t.len() - j,
    {
        hv.push(t[j]);
        j = j + 1;
        assert(hv@ =~= t@.subrange(p@.len() as int, j as int));
    }
    let hex_text = string_from_chars(&hv);
    let hex_bytes = hex_text.as_str().len();
    if hex_bytes != 2 * n {
        proof {
            if forall|q: int| 0 <= q < h.len() ==> is_hex_char(#[trigger] h[q]) {
                assert(is_ascii_chars(h)) by {
                    assert forall|q: int| 0 <= q < h.len() implies '\0' <= #[trigger] h[q]
                        <= '\u{7f}' by {
                        assert(is_hex_char(h[q]));
                    }
                }
                is_ascii_chars_encode_utf8(h);
                assert(h.len() == hv@.len());
            }
        }
        let mut v = chars_of("id `");
        push_all(&mut v, &t);
        push_str(&mut v, "` has ");
        push_decimal(&mut v, hex_bytes as u64);
        push_str(&mut v, " hex chars, expected ");
        push_decimal(&mut v, (2 * n) as u64);
        return Err(BinaryDbError::new(BinaryDbErrorKind::Invalid, string_from_chars(&v)));
    }
    let mut k: usize = 0;
    while k < hv.len()
        invariant
            hv@ == h,
            t@ == spec_trim(value@),
            p@ == prefix@,
            p@.len() <= t@.len(),
            ascii_lower_seq(t@.subrange(0, p@.len() as int)) == ascii_lower_seq(prefix@),
            h == t@.subrange(p@.len() as int, t@.len() as int),
            hex_bytes == (encode_utf8(h).len() as usize),
            hex_bytes == 2 * n,
            k <= hv@.len(),
            forall|q: int| 0 <= q < k ==> is_hex_char(#[trigger] h[q]),
        decreases hv@.len() - k,
    {
        if hex_nibble(hv[k]).is_none() {
            let mut v = chars_of("invalid hex id `");
            push_all(&mut v, &t);
            push_str(&mut v, "`");
            return Err(BinaryDbError::new(BinaryDbErrorKind::Invalid, string_from_chars(&v)));
        }
        k = k + 1;
    }
    proof {
        assert(is_ascii_chars(h)) by {
            assert forall|q: int| 0 <= q < h.len() implies '\0' <= #[trigger] h[q] <= '\u{7f}' by {
                assert(is_hex_char(h[q]));
            }
        }
        is_ascii_chars_encode_utf8(h);
        assert(h.len() == hv@.len());
    }
    let base = p.len();
    let mut out: Vec<u8> = Vec::new();
    let mut k: usize = 0;
    while k < n
        invariant
            h.len() == 2 * n,
            n <= 32,
            hv@ == h,
            k <= n,
            out@.len() == k,
            forall|q: int| 0 <= q < h.len() ==> is_hex_char(#[trigger] h[q]),
            forall|q: int|
                0 <= q < k ==> #[trigger] out@[q] == (hex_value(h[2 * q]) * 16 + hex_value(
                    h[2 * q + 1],
                )) as u8,
        decreases n - k,
    {
        let a = hv[2 * k];
        let b = hv[2 * k + 1];
        let hi = match hex_nibble(a) {
            Some(v) => v,
            None => {
                assert(false);
                return Err(BinaryDbError::new(BinaryDbErrorKind::Invalid, String::new()));
            },
        };
        let lo = match hex_nibble(b) {
            Some(v) => v,
            None => {
                assert(false);
                return Err(BinaryDbError::new(BinaryDbErrorKind::Invalid, String::new()));
            },
        };
        out.push(hi * 16 + lo);
        k = k + 1;
    }
    proof {
        assert(!exists|q: int| 0 <= q < h.len() && !is_hex_char(#[trigger] h[q]));
        assert(out@ =~= spec_parse_prefixed_hex(value@, prefix@, n as nat)->0);
    }
    Ok(out)
}

proof fn lemma_hex_digits(d: nat)
    requires
        d < 16,
    ensures
        is_hex_char(hex_digit_lower(d)),
        is_hex_char(hex_digit_upper(d)),
        hex_value(hex_digit_lower(d)) == d,
        hex_value(hex_digit_upper(d)) == d,
        !spec_char_is_whitespace(hex_digit_lower(d)),
        !spec_char_is_whitespace(hex_digit_upper(d)),
{
}

/// Parsing `prefix` followed by the hex of `bytes` (either case) gives the
/// bytes back, for a four-character prefix without white space.
proof fn lemma_parse_hex_id(prefix: Seq<char>, bytes: Seq<u8>, upper: bool)
    requires
        prefix.len() == 4,
        !spec_char_is_whitespace(prefix[0]),
        bytes.len() > 0,
    ensures
        spec_parse_prefixed_hex(
            prefix + (if upper {
                spec_hex_upper(bytes)
            } else {
                spec_hex_lower(bytes)
            }),
            prefix,
            bytes.len(),
        ) == Some(bytes),
{
    let h = if upper {
        spec_hex_upper(bytes)
    } else {
        spec_hex_lower(bytes)
    };
    let s = prefix + h;
    lemma_hex_shape(bytes);
    assert forall|i: int| 0 <= i < bytes.len() implies is_hex_char(h[2 * i]) && is_hex_char(
        h[2 * i + 1],
    ) && hex_value(h[2 * i]) == (#[trigger] bytes[i]) / 16 && hex_value(h[2 * i + 1]) == bytes[i]
        % 16 by {
        lemma_hex_digits((bytes[i] / 16) as nat);
        lemma_hex_digits((bytes[i] % 16) as nat);
    }
    let last = bytes.len() - 1;
    assert(bytes[last] == bytes[last]);
    lemma_hex_digits((bytes[last] % 16) as nat);
    assert(s.last() == h[2 * last + 1]);
    assert(s[0] == prefix[0]);
    lemma_trim_noop(s);
    assert(s.subrange(0, 4) =~= prefix);
    assert(s.subrange(4, s.len() as int) =~= h);
    assert(h.len() == 2 * bytes.len());
    assert forall|j: int| 0 <= j < h.len() implies is_hex_char(#[trigger] h[j]) by {
        let i = j / 2;
        assert(0 <= i < bytes.len());
        lemma_hex_digits((bytes[i] / 16) as nat);
        lemma_hex_digits((bytes[i] % 16) as nat);
        if j % 2 == 0 {
            assert(j == 2 * i);
        } else {
            assert(j == 2 * i + 1);
        }
    }
    let parsed = Seq::new(
        bytes.len(),
        |i: int| (hex_value(h[2 * i]) * 16 + hex_value(h[2 * i + 1])) as u8,
    );
    assert forall|i: int| 0 <= i < bytes.len() implies parsed[i] == bytes[i] by {
        assert(bytes[i] == bytes[i]);
        assert(bytes[i] / 16 * 16 + bytes[i] % 16 == bytes[i]);
    }
    assert(parsed =~= bytes);
}

/// A blob id names its digest prefix: the index key of the id of a digest
/// is the digest's first ten bytes.
pub proof fn law_blob_id_key_roundtrip(sha256: Seq<u8>)
    requires
        sha256.len() == 32,
    ensures
        spec_parse_prefixed_hex(spec_blob_id(sha256), "BLB-"@, 10) == Some(sha256.subrange(0, 10)),
{
    reveal_strlit("BLB-");
    lemma_parse_hex_id("BLB-"@, sha256.subrange(0, 10), false);
}

/// A tree id names its hash: the index key of the id of an 80-bit tree
/// hash is the hash.
pub proof fn law_tree_id_key_roundtrip(hash80: Seq<u8>)
    requires
        hash80.len() == 10,
    ensures
        spec_parse_prefixed_hex(spec_tree_id(hash80), "TRE-"@, 10) == Some(hash80),
{
    reveal_strlit("TRE-");
    lemma_parse_hex_id("TRE-"@, hash80, true);
}

/// The last `k` bytes of `n`, most significant first.
pub open spec fn be_bytes(n: nat, k: nat) -> Seq<u8>
    decreases k,
{
    if k == 0 {
        Seq::empty()
    } else {
        be_bytes(n / 256, (k - 1) as nat).push((n % 256) as u8)
    }
}

proof fn lemma_be_bytes_value(n: nat, k: nat)
    requires
        n < pow256(k),
    ensures
        be_bytes(n, k).len() == k,
        be_value(be_bytes(n, k)) == n,
    decreases k,
{
    if k > 0 {
        let p = pow256((k - 1) as nat);
        assert(n / 256 < p) by (nonlinear_arith)
            requires
                n < p * 256,
        ;
        lemma_be_bytes_value(n / 256, (k - 1) as nat);
        let b = be_bytes(n, k);
        assert(b.drop_last() =~= be_bytes(n / 256, (k - 1) as nat));
        assert((n / 256) * 256 + n % 256 == n) by (nonlinear_arith);
    }
}

proof fn lemma_padded_hex_is_bytes(n: nat, k: nat)
    requires
        k >= 1,
        n < pow256(k),
    ensures
        spec_upper_hex_padded(n, 2 * k) == spec_hex_upper(be_bytes(n, k)),
    decreases k,
{
    let b = be_bytes(n, k);
    assert(b.drop_last() =~= be_bytes(n / 256, (k - 1) as nat));
    assert(b.last() == (n % 256) as u8);
    assert((n % 256) / 16 == (n / 16) % 16 && (n % 256) % 16 == n % 16 && n / 16 / 16 == n / 256)
        by (nonlinear_arith);
    if k == 1 {
        assert(pow256(1) == 256) by {
            reveal_with_fuel(pow256, 2);
        }
        assert(n / 16 < 16);
        assert(be_bytes(n / 256, 0) =~= Seq::<u8>::empty());
        assert(spec_hex_upper(Seq::<u8>::empty()) =~= Seq::<char>::empty());
        assert(spec_upper_hex_padded(n / 16, 1) == seq![hex_digit_upper(n / 16)]);
        assert(spec_upper_hex_padded(n, 2) =~= spec_hex_upper(b));
    } else {
        let p = pow256((k - 1) as nat);
        assert(n / 256 < p) by (nonlinear_arith)
            requires
                n < p * 256,
        ;
        lemma_padded_hex_is_bytes(n / 256, (k - 1) as nat);
        assert(spec_upper_hex_padded(n / 16, (2 * k - 1) as nat) == spec_upper_hex_padded(
            n / 256,
            (2 * k - 2) as nat,
        ).push(hex_digit_upper((n / 16) % 16)));
        assert(spec_upper_hex_padded(n, 2 * k) =~= spec_hex_upper(b));
    }
}

/// A pack or snapshot id names its 48-bit hash: parsing the id of a hash
/// below 2^48 gives the hash back.
pub proof fn law_hash48_id_roundtrip(prefix: Seq<char>, hash48: u64)
    requires
        prefix.len() == 4,
        !spec_char_is_whitespace(prefix[0]),
        hash48 < 0x1_0000_0000_0000,
    ensures
        spec_hash48_from_id(spec_hash48_id(prefix, hash48), prefix) == Some(hash48),
{
    assert(pow256(6) == 0x1_0000_0000_0000) by {
        reveal_with_fuel(pow256, 7);
    }
    let bytes = be_bytes(hash48 as nat, 6);
    lemma_be_bytes_value(hash48 as nat, 6);
    lemma_padded_hex_is_bytes(hash48 as nat, 6);
    lemma_parse_hex_id(prefix, bytes, true);
}

/// The pack and snapshot index keys are the little-endian bytes of the
/// hash that the id names.
pub proof fn law_hash48_index_keys(hash48: u64)
    requires
        hash48 < 0x1_0000_0000_0000,
    ensures
        spec_hash48_from_id(spec_hash48_id("PCK-"@, hash48), "PCK-"@) == Some(hash48),
        spec_hash48_from_id(spec_hash48_id("TPK-"@, hash48), "TPK-"@) == Some(hash48),
        spec_hash48_from_id(spec_hash48_id("SNP-"@, hash48), "SNP-"@) == Some(hash48),
{
    reveal_strlit("PCK-");
    reveal_strlit("TPK-");
    reveal_strlit("SNP-");
    law_hash48_id_roundtrip("PCK-"@, hash48);
    law_hash48_id_roundtrip("TPK-"@, hash48);
    law_hash48_id_roundtrip("SNP-"@, hash48);
}

/// Big-endian value of a byte sequence.
pub open spec fn be_value(bytes: Seq<u8>) -> nat
    decreases bytes.len(),
{
    if bytes.len() == 0 {
        0
    } else {
        be_value(bytes.drop_last()) * 256 + bytes.last() as nat
    }
}

pub open spec fn pow256(n: nat) -> nat
    decreases n,
{
    if n == 0 {
        1
    } else {
        pow256((n - 1) as nat) * 256
    }
}

proof fn lemma_be_value_bound(bytes: Seq<u8>)
    ensures
        be_value(bytes) < pow256(bytes.len()),
    decreases bytes.len(),
{
    if bytes.len() > 0 {
        lemma_be_value_bound(bytes.drop_last());
        let p = pow256((bytes.len() - 1) as nat);
        assert(be_value(bytes.drop_last()) * 256 + bytes.last() < p * 256) by (nonlinear_arith)
            requires
                be_value(bytes.drop_last()) < p,
                bytes.last() < 256,
        ;
    }
}

proof fn lemma_pow256_monotone(i: nat, j: nat)
    requires
        i <= j,
    ensures
        pow256(i) <= pow256(j),
    decreases j,
{
    if i < j {
        lemma_pow256_monotone(i, (j - 1) as nat);
    }
}

pub(crate) fn be_value_of(bytes: &Vec<u8>) -> (v: u64)
    requires
        bytes@.len() <= 6,
    ensures
        v as nat == be_value(bytes@),
{
    let mut acc: u64 = 0;
    let mut i: usize = 0;
    while i < bytes.len()
        invariant
            i <= bytes@.len() <= 6,
            acc as nat == be_value(bytes@.subrange(0, i as int)),
        decreases bytes.len() - i,
    {
        proof {
            lemma_be_value_bound(bytes@.subrange(0, i as int));
            lemma_pow256_monotone(i as nat, 5);
            assert(pow256(5) == 0x100_0000_0000) by {
                reveal_with_fuel(pow256, 6);
            }
            let s = bytes@.subrange(0, i + 1);
            assert(s.drop_last() =~= bytes@.subrange(0, i as int));
        }
        acc = acc * 256 + bytes[i] as u64;
        i = i + 1;
    }
    assert(bytes@.subrange(0, bytes@.len() as int) =~= bytes@);
    acc
}

/// The 48-bit hash named by `prefix` + 12 hex digits.
pub open spec fn spec_hash48_from_id(value: Seq<char>, prefix: Seq<char>) -> Option<u64> {
    match spec_parse_prefixed_hex(value, prefix, 6) {
        Some(bytes) => Some(be_value(bytes) as u64),
        None => None,
    }
}

fn prefixed_hash48_from_id(value: &str, prefix: &str) -> (r: StoreResult<u64>)
    ensures
        r is Ok <==> spec_hash48_from_id(value@, prefix@) is Some,
        r matches Ok(h) ==> h == spec_hash48_from_id(value@, prefix@)->0,
        r matches Err(e) ==> e.kind == BinaryDbErrorKind::Invalid && e.message@ == spec_prefixed_hex_error(value@, prefix@, 6),
{
    let bytes = parse_prefixed_hex(value, prefix, 6)?;
    Ok(be_value_of(&bytes))
}

pub fn object_pack_hash48_from_id(pack_id: &str) -> (r: StoreResult<u64>)
    ensures
        r is Ok <==> spec_hash48_from_id(pack_id@, "PCK-"@) is Some,
        r matches Ok(h) ==> h == spec_hash48_from_id(pack_id@, "PCK-"@)->0,
        r matches Err(e) ==> e.kind == BinaryDbErrorKind::Invalid && e.message@ == spec_prefixed_hex_error(pack_id@, "PCK-"@, 6),
{
    prefixed_hash48_from_id(pack_id, "PCK-")
}

pub fn tree_pack_hash48_from_id(pack_id: &str) -> (r: StoreResult<u64>)
    ensures
        r is Ok <==> spec_hash48_from_id(pack_id@, "TPK-"@) is Some,
        r matches Ok(h) ==> h == spec_hash48_from_id(pack_id@, "TPK-"@)->0,
        r matches Err(e) ==> e.kind == BinaryDbErrorKind::Invalid && e.message@ == spec_prefixed_hex_error(pack_id@, "TPK-"@, 6),
{
    prefixed_hash48_from_id(pack_id, "TPK-")
}

pub fn snapshot_hash48_from_id(snapshot_id: &str) -> (r: StoreResult<u64>)
    ensures
        r is Ok <==> spec_hash48_from_id(snapshot_id@, "SNP-"@) is Some,
        r matches Ok(h) ==> h == spec_hash48_from_id(snapshot_id@, "SNP-"@)->0,
        r matches Err(e) ==> e.kind == BinaryDbErrorKind::Invalid && e.message@ == spec_prefixed_hex_error(snapshot_id@, "SNP-"@, 6),
{
    prefixed_hash48_from_id(snapshot_id, "SNP-")
}

fn array10_of(bytes: &Vec<u8>) -> (a: [u8; 10])
    requires
        bytes@.len() == 10,
    ensures
        a@ == bytes@,
{
    let mut a = [0u8; 10];
    let mut i: usize = 0;
    while i < 10
        invariant
            bytes@.len() == 10,
            i <= 10,
            forall|k: int| 0 <= k < i ==> a@[k] == bytes@[k],
        decreases 10 - i,
    {
        a[i] = bytes[i];
        i = i + 1;
    }
    assert(a@ =~= bytes@);
    a
}

pub fn blob_id_index_key(blob_id: &str) -> (r: StoreResult<[u8; 10]>)
    ensures
        r is Ok <==> spec_parse_prefixed_hex(blob_id@, "BLB-"@, 10) is Some,
        r matches Ok(k) ==> k@ == spec_parse_prefixed_hex(blob_id@, "BLB-"@, 10)->0,
        r matches Err(e) ==> e.kind == BinaryDbErrorKind::Invalid && e.message@ == spec_prefixed_hex_error(blob_id@, "BLB-"@, 10),
{
    let bytes = parse_prefixed_hex(blob_id, "BLB-", 10)?;
    Ok(array10_of(&bytes))
}

pub fn tree_id_index_key(tree_id: &str) -> (r: StoreResult<[u8; 10]>)
    ensures
        r is Ok <==> spec_parse_prefixed_hex(tree_id@, "TRE-"@, 10) is Some,
        r matches Ok(k) ==> k@ == spec_parse_prefixed_hex(tree_id@, "TRE-"@, 10)->0,
        r matches Err(e) ==> e.kind == BinaryDbErrorKind::Invalid && e.message@ == spec_prefixed_hex_error(tree_id@, "TRE-"@, 10),
{
    let bytes = parse_prefixed_hex(tree_id, "TRE-", 10)?;
    Ok(array10_of(&bytes))
}

fn le_array8(v: u64) -> (a: [u8; 8])
    ensures
        a@ == vstd::bytes::spec_u64_to_le_bytes(v),
{
    let bytes = vstd::bytes::u64_to_le_bytes(v);
    proof {
        vstd::bytes::lemma_auto_spec_u64_to_from_le_bytes();
    }
    let mut a = [0u8; 8];
    let mut i: usize = 0;
    while i < 8
        invariant
            bytes@.len() == 8,
            i <= 8,
            forall|k: int| 0 <= k < i ==> a@[k] == bytes@[k],
        decreases 8 - i,
    {
        a[i] = bytes[i];
        i = i + 1;
    }
    assert(a@ =~= bytes@);
    a
}

pub fn object_pack_id_index_key(pack_id: &str) -> (r: StoreResult<[u8; 8]>)
    ensures
        r is Ok <==> spec_hash48_from_id(pack_id@, "PCK-"@) is Some,
        r matches Ok(k) ==> k@ == vstd::bytes::spec_u64_to_le_bytes(
            spec_hash48_from_id(pack_id@, "PCK-"@)->0,
        ),
        r matches Err(e) ==> e.kind == BinaryDbErrorKind::Invalid && e.message@ == spec_prefixed_hex_error(pack_id@, "PCK-"@, 6),
{
    Ok(le_array8(object_pack_hash48_from_id(pack_id)?))
}

pub fn tree_pack_id_index_key(pack_id: &str) -> (r: StoreResult<[u8; 8]>)
    ensures
        r is Ok <==> spec_hash48_from_id(pack_id@, "TPK-"@) is Some,
        r matches Ok(k) ==> k@ == vstd::bytes::spec_u64_to_le_bytes(
            spec_hash48_from_id(pack_id@, "TPK-"@)->0,
        ),
        r matches Err(e) ==> e.kind == BinaryDbErrorKind::Invalid && e.message@ == spec_prefixed_hex_error(pack_id@, "TPK-"@, 6),
{
    Ok(le_array8(tree_pack_hash48_from_id(pack_id)?))
}

pub fn snapshot_id_index_key(snapshot_id: &str) -> (r: StoreResult<[u8; 8]>)
    ensures
        r is Ok <==> spec_hash48_from_id(snapshot_id@, "SNP-"@) is Some,
        r matches Ok(k) ==> k@ == vstd::bytes::spec_u64_to_le_bytes(
            spec_hash48_from_id(snapshot_id@, "SNP-"@)->0,
        ),
        r matches Err(e) ==> e.kind == BinaryDbErrorKind::Invalid && e.message@ == spec_prefixed_hex_error(snapshot_id@, "SNP-"@, 6),
{
    Ok(le_array8(snapshot_hash48_from_id(snapshot_id)?))
}

} // verus!
