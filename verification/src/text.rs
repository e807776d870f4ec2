//! Character-level text helpers shared by the identifier, JSON and error
//! formatting code.

use vstd::prelude::*;

verus! {

/// Unicode `White_Space` (the set std's `char::is_whitespace` tests):
/// U+0009..U+000D, U+0020, U+0085, U+00A0, U+1680, U+2000..U+200A,
/// U+2028, U+2029, U+202F, U+205F and U+3000.
pub open spec fn spec_char_is_whitespace(c: char) -> bool {
    let u = c as u32;
    (0x09 <= u && u <= 0x0d) || u == 0x20 || u == 0x85 || u == 0xa0 || u == 0x1680 || (0x2000 <= u
        && u <= 0x200a) || u == 0x2028 || u == 0x2029 || u == 0x202f || u == 0x205f || u == 0x3000
}

pub fn char_is_whitespace(c: char) -> (r: bool)
    ensures
        r == spec_char_is_whitespace(c),
{
    let u = c as u32;
    (0x09 <= u && u <= 0x0d) || u == 0x20 || u == 0x85 || u == 0xa0 || u == 0x1680 || (0x2000 <= u
        && u <= 0x200a) || u == 0x2028 || u == 0x2029 || u == 0x202f || u == 0x205f || u == 0x3000
}

/// Appends one character to a `String` (std `String::push`).
#[verifier::external_body]
pub(crate) fn push_char(s: &mut String, c: char)
    ensures
        final(s)@ == old(s)@.push(c),
{
    s.push(c);
}

pub open spec fn is_ascii_digit(c: char) -> bool {
    '0' <= c && c <= '9'
}

pub open spec fn is_ascii_alphanumeric(c: char) -> bool {
    ('0' <= c && c <= '9') || ('a' <= c && c <= 'z') || ('A' <= c && c <= 'Z')
}

/// ASCII lower-casing of one character; every other character is kept.
pub open spec fn ascii_lower(c: char) -> char {
    if 'A' <= c && c <= 'Z' {
        ((c as u8) + 32) as char
    } else {
        c
    }
}

pub open spec fn ascii_lower_seq(s: Seq<char>) -> Seq<char> {
    Seq::new(s.len(), |i: int| ascii_lower(s[i]))
}

/// Character of a decimal digit `d < 10`.
pub open spec fn decimal_digit(d: nat) -> char {
    ((d + 48) as u8) as char
}

/// Decimal rendering of a natural number, without leading zeros.
pub open spec fn spec_decimal(n: nat) -> Seq<char>
    decreases n,
{
    if n < 10 {
        seq![decimal_digit(n)]
    } else {
        spec_decimal(n / 10).push(decimal_digit(n % 10))
    }
}

pub open spec fn hex_digit_lower(d: nat) -> char {
    if d < 10 {
        ((d + 48) as u8) as char
    } else {
        ((d + 87) as u8) as char
    }
}

pub open spec fn hex_digit_upper(d: nat) -> char {
    if d < 10 {
        ((d + 48) as u8) as char
    } else {
        ((d + 55) as u8) as char
    }
}

/// Two lower-case hex digits per byte, most significant nibble first.
pub open spec fn spec_hex_lower(bytes: Seq<u8>) -> Seq<char>
    decreases bytes.len(),
{
    if bytes.len() == 0 {
        seq![]
    } else {
        spec_hex_lower(bytes.drop_last()) + seq![
            hex_digit_lower((bytes.last() / 16) as nat),
            hex_digit_lower((bytes.last() % 16) as nat),
        ]
    }
}

/// Two upper-case hex digits per byte, most significant nibble first.
pub open spec fn spec_hex_upper(bytes: Seq<u8>) -> Seq<char>
    decreases bytes.len(),
{
    if bytes.len() == 0 {
        seq![]
    } else {
        spec_hex_upper(bytes.drop_last()) + seq![
            hex_digit_upper((bytes.last() / 16) as nat),
            hex_digit_upper((bytes.last() % 16) as nat),
        ]
    }
}

/// Index of the first character that is not white space (or `s.len()`).
pub open spec fn trim_start_index(s: Seq<char>) -> int
    decreases s.len(),
{
    if s.len() == 0 {
        0
    } else if spec_char_is_whitespace(s[0]) {
        1 + trim_start_index(s.drop_first())
    } else {
        0
    }
}

/// Length left after dropping trailing white space.
pub open spec fn trim_end_len(s: Seq<char>) -> int
    decreases s.len(),
{
    if s.len() == 0 {
        0
    } else if spec_char_is_whitespace(s.last()) {
        trim_end_len(s.drop_last())
    } else {
        s.len() as int
    }
}

/// `s` without leading and trailing Unicode white space (std `str::trim`).
pub open spec fn spec_trim(s: Seq<char>) -> Seq<char> {
    let t = s.subrange(0, trim_end_len(s));
    t.subrange(trim_start_index(t), t.len() as int)
}

pub proof fn lemma_trim_start_bounds(s: Seq<char>)
    ensures
        0 <= trim_start_index(s) <= s.len(),
        forall|i: int| 0 <= i < trim_start_index(s) ==> spec_char_is_whitespace(#[trigger] s[i]),
        trim_start_index(s) < s.len() ==> !spec_char_is_whitespace(s[trim_start_index(s)]),
    decreases s.len(),
{
    if s.len() > 0 && spec_char_is_whitespace(s[0]) {
        lemma_trim_start_bounds(s.drop_first());
        assert forall|i: int| 0 <= i < trim_start_index(s) implies spec_char_is_whitespace(
            #[trigger] s[i],
        ) by {
            if i > 0 {
                assert(s[i] == s.drop_first()[i - 1]);
            }
        }
    }
}

pub proof fn lemma_trim_end_bounds(s: Seq<char>)
    ensures
        0 <= trim_end_len(s) <= s.len(),
        forall|i: int| trim_end_len(s) <= i < s.len() ==> spec_char_is_whitespace(#[trigger] s[i]),
        trim_end_len(s) > 0 ==> !spec_char_is_whitespace(s[trim_end_len(s) - 1]),
    decreases s.len(),
{
    if s.len() > 0 && spec_char_is_whitespace(s.last()) {
        lemma_trim_end_bounds(s.drop_last());
        assert forall|i: int| trim_end_len(s) <= i < s.len() implies spec_char_is_whitespace(
            #[trigger] s[i],
        ) by {
            if i < s.len() - 1 {
                assert(s[i] == s.drop_last()[i]);
            }
        }
    }
}

/// Trimming text that neither starts nor ends with white space keeps it.
pub proof fn lemma_trim_noop(s: Seq<char>)
    requires
        s.len() > 0,
        !spec_char_is_whitespace(s[0]),
        !spec_char_is_whitespace(s.last()),
    ensures
        spec_trim(s) == s,
{
    assert(trim_end_len(s) == s.len());
    assert(s.subrange(0, s.len() as int) =~= s);
    assert(trim_start_index(s) == 0);
    assert(s.subrange(0, s.len() as int) =~= s);
}

/// Trimmed text that is not empty neither starts nor ends with white space.
pub proof fn lemma_trim_result_ends(s: Seq<char>)
    requires
        spec_trim(s).len() > 0,
    ensures
        !spec_char_is_whitespace(spec_trim(s)[0]),
        !spec_char_is_whitespace(spec_trim(s).last()),
{
    let e = trim_end_len(s);
    lemma_trim_end_bounds(s);
    let t = s.subrange(0, e);
    lemma_trim_start_bounds(t);
    let b = trim_start_index(t);
    assert(spec_trim(s)[0] == t[b]);
    assert(spec_trim(s).last() == t[t.len() - 1]);
    assert(t[t.len() - 1] == s[e - 1]);
}

/// The digits of a hex rendering: two per byte, high nibble first.
pub proof fn lemma_hex_shape(bytes: Seq<u8>)
    ensures
        spec_hex_lower(bytes).len() == 2 * bytes.len(),
        spec_hex_upper(bytes).len() == 2 * bytes.len(),
        forall|i: int|
            0 <= i < bytes.len() ==> spec_hex_lower(bytes)[2 * i] == hex_digit_lower(
                (#[trigger] bytes[i] / 16) as nat,
            ) && spec_hex_lower(bytes)[2 * i + 1] == hex_digit_lower((bytes[i] % 16) as nat)
                && spec_hex_upper(bytes)[2 * i] == hex_digit_upper((bytes[i] / 16) as nat)
                && spec_hex_upper(bytes)[2 * i + 1] == hex_digit_upper((bytes[i] % 16) as nat),
    decreases bytes.len(),
{
    if bytes.len() > 0 {
        let prev = bytes.drop_last();
        lemma_hex_shape(prev);
        assert forall|i: int| 0 <= i < bytes.len() implies spec_hex_lower(bytes)[2 * i]
            == hex_digit_lower((#[trigger] bytes[i] / 16) as nat) && spec_hex_lower(bytes)[2 * i + 1]
            == hex_digit_lower((bytes[i] % 16) as nat) && spec_hex_upper(bytes)[2 * i]
            == hex_digit_upper((bytes[i] / 16) as nat) && spec_hex_upper(bytes)[2 * i + 1]
            == hex_digit_upper((bytes[i] % 16) as nat) by {
            if i < bytes.len() - 1 {
                assert(bytes[i] == prev[i]);
            }
        }
    }
}

/// The characters of a string slice, in order.
pub fn chars_of(s: &str) -> (v: Vec<char>)
    ensures
        v@ == s@,
{
    let n = s.unicode_len();
    let mut out: Vec<char> = Vec::new();
    let mut i: usize = 0;
    while i < n
        invariant
            n == s@.len(),
            i <= n,
            out@ == s@.subrange(0, i as int),
        decreases n - i,
    {
        let c = s.get_char(i);
        out.push(c);
        i = i + 1;
        assert(out@ =~= s@.subrange(0, i as int));
    }
    assert(s@.subrange(0, n as int) =~= s@);
    out
}

/// Builds a `String` whose characters are exactly `chars`.
pub fn string_from_chars(chars: &Vec<char>) -> (s: String)
    ensures
        s@ == chars@,
{
    let mut out = String::new();
    let mut i: usize = 0;
    while i < chars.len()
        invariant
            i <= chars.len(),
            out@ == chars@.subrange(0, i as int),
        decreases chars.len() - i,
    {
        push_char(&mut out, chars[i]);
        i = i + 1;
        assert(out@ =~= chars@.subrange(0, i as int));
    }
    assert(chars@.subrange(0, chars@.len() as int) =~= chars@);
    out
}

/// Appends every character of `suffix` to `out`.
pub fn push_all(out: &mut Vec<char>, suffix: &Vec<char>)
    ensures
        final(out)@ == old(out)@ + suffix@,
{
    let mut i: usize = 0;
    while i < suffix.len()
        invariant
            i <= suffix.len(),
            out@ == old(out)@ + suffix@.subrange(0, i as int),
        decreases suffix.len() - i,
    {
        out.push(suffix[i]);
        i = i + 1;
        assert(out@ =~= old(out)@ + suffix@.subrange(0, i as int));
    }
    assert(suffix@.subrange(0, suffix@.len() as int) =~= suffix@);
}

/// Appends every character of a string slice to `out`.
pub fn push_str(out: &mut Vec<char>, suffix: &str)
    ensures
        final(out)@ == old(out)@ + suffix@,
{
    let v = chars_of(suffix);
    push_all(out, &v);
}

/// Appends the decimal digits of `n`.
pub fn push_decimal(out: &mut Vec<char>, n: u64)
    ensures
        final(out)@ == old(out)@ + spec_decimal(n as nat),
{
    let d = decimal_chars(n);
    push_all(out, &d);
}

/// Decimal digits of `n`.
pub fn decimal_chars(n: u64) -> (v: Vec<char>)
    ensures
        v@ == spec_decimal(n as nat),
    decreases n,
{
    if n < 10 {
        let mut v = Vec::new();
        v.push(char_of_digit(n as u8));
        v
    } else {
        let mut v = decimal_chars(n / 10);
        v.push(char_of_digit((n % 10) as u8));
        v
    }
}

fn char_of_digit(d: u8) -> (c: char)
    requires
        d < 10,
    ensures
        c == decimal_digit(d as nat),
{
    ((d + 48) as u8) as char
}

/// Decimal rendering of `n` as a `String`.
pub fn decimal_string(n: u64) -> (s: String)
    ensures
        s@ == spec_decimal(n as nat),
{
    let v = decimal_chars(n);
    string_from_chars(&v)
}

fn hex_char(d: u8, upper: bool) -> (c: char)
    requires
        d < 16,
    ensures
        upper ==> c == hex_digit_upper(d as nat),
        !upper ==> c == hex_digit_lower(d as nat),
{
    if d < 10 {
        ((d + 48) as u8) as char
    } else if upper {
        ((d + 55) as u8) as char
    } else {
        ((d + 87) as u8) as char
    }
}

/// Lower-case hex digits of `bytes`.
pub fn hex_lower_chars(bytes: &[u8]) -> (v: Vec<char>)
    ensures
        v@ == spec_hex_lower(bytes@),
{
    let mut out: Vec<char> = Vec::new();
    let mut i: usize = 0;
    while i < bytes.len()
        invariant
            i <= bytes.len(),
            out@ == spec_hex_lower(bytes@.subrange(0, i as int)),
        decreases bytes.len() - i,
    {
        let b = bytes[i];
        out.push(hex_char(b / 16, false));
        out.push(hex_char(b % 16, false));
        proof {
            let next = bytes@.subrange(0, i + 1);
            assert(next.drop_last() =~= bytes@.subrange(0, i as int));
            assert(next.last() == b);
        }
        i = i + 1;
        assert(out@ =~= spec_hex_lower(bytes@.subrange(0, i as int)));
    }
    assert(bytes@.subrange(0, bytes@.len() as int) =~= bytes@);
    out
}

/// Upper-case hex digits of `bytes`.
pub fn hex_upper_chars(bytes: &[u8]) -> (v: Vec<char>)
    ensures
        v@ == spec_hex_upper(bytes@),
{
    let mut out: Vec<char> = Vec::new();
    let mut i: usize = 0;
    while i < bytes.len()
        invariant
            i <= bytes.len(),
            out@ == spec_hex_upper(bytes@.subrange(0, i as int)),
        decreases bytes.len() - i,
    {
        let b = bytes[i];
        out.push(hex_char(b / 16, true));
        out.push(hex_char(b % 16, true));
        proof {
            let next = bytes@.subrange(0, i + 1);
            assert(next.drop_last() =~= bytes@.subrange(0, i as int));
            assert(next.last() == b);
        }
        i = i + 1;
        assert(out@ =~= spec_hex_upper(bytes@.subrange(0, i as int)));
    }
    assert(bytes@.subrange(0, bytes@.len() as int) =~= bytes@);
    out
}

/// Lower-case hex rendering of `bytes` as a `String`.
pub fn hex_lower(bytes: &[u8]) -> (s: String)
    ensures
        s@ == spec_hex_lower(bytes@),
{
    let v = hex_lower_chars(bytes);
    string_from_chars(&v)
}

/// Upper-case hex rendering of `bytes` as a `String`.
pub fn hex_upper(bytes: &[u8]) -> (s: String)
    ensures
        s@ == spec_hex_upper(bytes@),
{
    let v = hex_upper_chars(bytes);
    string_from_chars(&v)
}

pub fn ascii_lower_char(c: char) -> (r: char)
    ensures
        r == ascii_lower(c),
{
    if 'A' <= c && c <= 'Z' {
        ((c as u8) + 32) as char
    } else {
        c
    }
}

/// ASCII lower-casing of every character (std `to_ascii_lowercase`).
pub fn to_ascii_lowercase(s: &Vec<char>) -> (r: Vec<char>)
    ensures
        r@ == ascii_lower_seq(s@),
{
    let mut out: Vec<char> = Vec::new();
    let mut i: usize = 0;
    while i < s.len()
        invariant
            i <= s.len(),
            out@ =~= ascii_lower_seq(s@.subrange(0, i as int)),
        decreases s.len() - i,
    {
        let c = ascii_lower_char(s[i]);
        out.push(c);
        i = i + 1;
        assert(out@ =~= ascii_lower_seq(s@.subrange(0, i as int)));
    }
    assert(s@.subrange(0, s@.len() as int) =~= s@);
    out
}

/// Case-insensitive ASCII comparison (std `eq_ignore_ascii_case`).
pub fn chars_eq_ignore_ascii_case(a: &Vec<char>, b: &Vec<char>) -> (r: bool)
    ensures
        r == (ascii_lower_seq(a@) == ascii_lower_seq(b@)),
{
    if a.len() != b.len() {
        proof {
            assert(ascii_lower_seq(a@).len() != ascii_lower_seq(b@).len());
        }
        return false;
    }
    let mut i: usize = 0;
    while i < a.len()
        invariant
            a.len() == b.len(),
            i <= a.len(),
            forall|k: int| 0 <= k < i ==> ascii_lower(a@[k]) == ascii_lower(b@[k]),
        decreases a.len() - i,
    {
        if ascii_lower_char(a[i]) != ascii_lower_char(b[i]) {
            proof {
                assert(ascii_lower_seq(a@)[i as int] != ascii_lower_seq(b@)[i as int]);
            }
            return false;
        }
        i = i + 1;
    }
    assert(ascii_lower_seq(a@) =~= ascii_lower_seq(b@));
    true
}

/// Whether two character sequences are equal.
pub fn chars_eq(a: &Vec<char>, b: &Vec<char>) -> (r: bool)
    ensures
        r == (a@ == b@),
{
    if a.len() != b.len() {
        return false;
    }
    let mut i: usize = 0;
    while i < a.len()
        invariant
            a.len() == b.len(),
            i <= a.len(),
            forall|k: int| 0 <= k < i ==> a@[k] == b@[k],
        decreases a.len() - i,
    {
        if a[i] != b[i] {
            return false;
        }
        i = i + 1;
    }
    assert(a@ =~= b@);
    true
}

/// Whether the characters of a `String` equal those of a string slice.
pub fn str_eq(a: &str, b: &str) -> (r: bool)
    ensures
        r == (a@ == b@),
{
    let x = chars_of(a);
    let y = chars_of(b);
    chars_eq(&x, &y)
}

/// `s` without `prefix` when it starts with it (std `str::strip_prefix`).
pub open spec fn spec_strip_prefix(s: Seq<char>, prefix: Seq<char>) -> Option<Seq<char>> {
    if prefix.len() <= s.len() && s.subrange(0, prefix.len() as int) == prefix {
        Some(s.subrange(prefix.len() as int, s.len() as int))
    } else {
        None
    }
}

pub fn strip_prefix_chars(s: &Vec<char>, prefix: &str) -> (r: Option<Vec<char>>)
    ensures
        r matches Some(v) ==> spec_strip_prefix(s@, prefix@) == Some(v@),
        r is None ==> spec_strip_prefix(s@, prefix@) is None,
{
    let p = chars_of(prefix);
    if p.len() > s.len() {
        return None;
    }
    let mut i: usize = 0;
    while i < p.len()
        invariant
            p@ == prefix@,
            p.len() <= s.len(),
            i <= p.len(),
            forall|k: int| 0 <= k < i ==> s@[k] == p@[k],
        decreases p.len() - i,
    {
        if s[i] != p[i] {
            proof {
                assert(s@.subrange(0, p@.len() as int)[i as int] != p@[i as int]);
            }
            return None;
        }
        i = i + 1;
    }
    assert(s@.subrange(0, p@.len() as int) =~= p@);
    let mut rest: Vec<char> = Vec::new();
    let mut j: usize = p.len();
    while j < s.len()
        invariant
            p.len() <= j <= s.len(),
            rest@ == s@.subrange(p@.len() as int, j as int),
        decreases s.len() - j,
    {
        rest.push(s[j]);
        j = j + 1;
        assert(rest@ =~= s@.subrange(p@.len() as int, j as int));
    }
    Some(rest)
}

/// Whether the characters in `v` equal those of the string slice `s`.
pub fn chars_eq_str(v: &Vec<char>, s: &str) -> (r: bool)
    ensures
        r == (v@ == s@),
{
    let w = chars_of(s);
    chars_eq(v, &w)
}

/// `a` and `b` joined.
pub fn cat2(a: &str, b: &str) -> (r: String)
    ensures
        r@ == a@ + b@,
{
    let mut v = chars_of(a);
    push_str(&mut v, b);
    string_from_chars(&v)
}

/// `a`, `b` and `c` joined.
pub fn cat3(a: &str, b: &str, c: &str) -> (r: String)
    ensures
        r@ == a@ + b@ + c@,
{
    let mut v = chars_of(a);
    push_str(&mut v, b);
    push_str(&mut v, c);
    string_from_chars(&v)
}

/// `a` to `e` joined.
pub fn cat5(a: &str, b: &str, c: &str, d: &str, e: &str) -> (r: String)
    ensures
        r@ == a@ + b@ + c@ + d@ + e@,
{
    let mut v = chars_of(a);
    push_str(&mut v, b);
    push_str(&mut v, c);
    push_str(&mut v, d);
    push_str(&mut v, e);
    string_from_chars(&v)
}

/// Trimmed text, or nothing when only white space remains.
pub open spec fn spec_normalize_text(s: Seq<char>) -> Option<Seq<char>> {
    if spec_trim(s).len() == 0 {
        None
    } else {
        Some(spec_trim(s))
    }
}

/// Optional text trimmed, with blank text treated as absent.
pub fn normalize_optional_text(value: Option<&str>) -> (r: Option<String>)
    ensures
        r matches Some(t) ==> value matches Some(v) && spec_normalize_text(v@) == Some(t@),
        r is None ==> (value matches Some(v) ==> spec_normalize_text(v@) is None),
{
    match value {
        None => None,
        Some(v) => {
            let t = trim_str(v);
            if t.len() == 0 {
                None
            } else {
                Some(string_from_chars(&t))
            }
        },
    }
}

/// `s` without leading and trailing white space (std `str::trim`).
pub fn trim_chars(s: &Vec<char>) -> (r: Vec<char>)
    ensures
        r@ == spec_trim(s@),
{
    let ghost g = s@;
    let mut end: usize = s.len();
    proof {
        lemma_trim_end_suffix(g, g.len() as int);
    }
    while end > 0 && char_is_whitespace(s[end - 1])
        invariant
            end <= s.len(),
            trim_end_len(g.subrange(0, end as int)) == trim_end_len(g),
            g == s@,
        decreases end,
    {
        proof {
            let t = g.subrange(0, end as int);
            assert(t.drop_last() =~= g.subrange(0, end - 1));
        }
        end = end - 1;
    }
    proof {
        let t = g.subrange(0, end as int);
        if end > 0 {
            assert(t.last() == g[end - 1]);
        }
        assert(trim_end_len(t) == end);
    }
    let mut start: usize = 0;
    let ghost t = g.subrange(0, end as int);
    assert(t.subrange(0, t.len() as int) =~= t);
    while start < end && char_is_whitespace(s[start])
        invariant
            start <= end <= s.len(),
            t == s@.subrange(0, end as int),
            trim_start_index(t) == start + trim_start_index(t.subrange(start as int, t.len() as int)),
        decreases end - start,
    {
        proof {
            let u = t.subrange(start as int, t.len() as int);
            assert(u[0] == s@[start as int]);
            assert(u.drop_first() =~= t.subrange(start + 1, t.len() as int));
        }
        start = start + 1;
    }
    proof {
        let u = t.subrange(start as int, t.len() as int);
        if start < end {
            assert(u[0] == s@[start as int]);
        }
        assert(trim_start_index(u) == 0);
    }
    let mut out: Vec<char> = Vec::new();
    let mut i: usize = start;
    while i < end
        invariant
            start <= i <= end <= s.len(),
            out@ =~= s@.subrange(start as int, i as int),
        decreases end - i,
    {
        out.push(s[i]);
        i = i + 1;
        assert(out@ =~= s@.subrange(start as int, i as int));
    }
    assert(out@ =~= spec_trim(g));
    out
}

proof fn lemma_trim_end_suffix(g: Seq<char>, n: int)
    requires
        n == g.len(),
    ensures
        trim_end_len(g.subrange(0, n)) == trim_end_len(g),
{
    assert(g.subrange(0, n) =~= g);
}

/// Trimmed characters of a string slice.
pub fn trim_str(s: &str) -> (r: Vec<char>)
    ensures
        r@ == spec_trim(s@),
{
    let v = chars_of(s);
    trim_chars(&v)
}

/// `a`, the decimal rendering of `n`, then `b`.
pub fn text_with_number(a: &str, n: u64, b: &str) -> (r: String)
    ensures
        r@ == a@ + spec_decimal(n as nat) + b@,
{
    let mut v = chars_of(a);
    let d = decimal_chars(n);
    push_all(&mut v, &d);
    push_str(&mut v, b);
    string_from_chars(&v)
}

/// `a`, then `n`, then `b`, then `m`, then `c`.
pub fn text_with_two_numbers(a: &str, n: u64, b: &str, m: u64, c: &str) -> (r: String)
    ensures
        r@ == a@ + spec_decimal(n as nat) + b@ + spec_decimal(m as nat) + c@,
{
    let mut v = chars_of(a);
    let d = decimal_chars(n);
    push_all(&mut v, &d);
    push_str(&mut v, b);
    let e = decimal_chars(m);
    push_all(&mut v, &e);
    push_str(&mut v, c);
    string_from_chars(&v)
}

/// A `String` built from a string slice.
pub fn owned(s: &str) -> (r: String)
    ensures
        r@ == s@,
{
    s.to_owned()
}

} // verus!
