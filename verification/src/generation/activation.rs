//! What activating a generation decides on its own: the shape of the client
//! manifest, the safety of every path it declares, the layout of its local
//! binary files, the inventory it declares against the files present, and
//! the content fingerprint it records.

use vstd::prelude::*;

use crate::generation::manifest::{
    fingerprint_files, fingerprint_input, fixed_record_size, fixed_record_size_of,
    GenerationFileManifest,
};
use vstd::bytes::*;
use crate::generation::paths::{
    is_canonical_pack_path, is_sha256, spec_is_canonical_pack_path, spec_is_sha256,
    spec_strip_suffix, strip_suffix_chars,
};
use crate::digest::{sha256_digest, spec_sha256};
use crate::schema::codec::{le64, push_slice, push_u64};
use vstd::utf8::encode_utf8;
use crate::text::{
    chars_eq_str, chars_of, owned, push_all, push_decimal, push_str, spec_hex_lower,
    spec_strip_prefix, str_eq, string_from_chars, strip_prefix_chars,
};

verus! {

// ----- manifest paths ---------------------------------------------------------------

/// A piece between separators is a path component unless it is empty or `.`.
pub open spec fn counts_as_component(p: Seq<char>) -> bool {
    p.len() > 0 && !(p.len() == 1 && p[0] == '.')
}

/// The piece `..`.
pub open spec fn is_parent_piece(p: Seq<char>) -> bool {
    p.len() == 2 && p[0] == '.' && p[1] == '.'
}

/// Scanning `s` from `i`, the current piece having started at `start`: how
/// many pieces are components, and whether one of them is `..`.
pub open spec fn scan_pieces(s: Seq<char>, start: int, i: int) -> (nat, bool)
    decreases s.len() - i,
{
    if i >= s.len() {
        let p = s.subrange(start, s.len() as int);
        (if counts_as_component(p) {
            1nat
        } else {
            0nat
        }, is_parent_piece(p))
    } else if s[i] == '/' {
        let p = s.subrange(start, i);
        let rest = scan_pieces(s, i + 1, i + 1);
        (rest.0 + if counts_as_component(p) {
            1nat
        } else {
            0nat
        }, is_parent_piece(p) || rest.1)
    } else {
        scan_pieces(s, start, i + 1)
    }
}

/// The texts of a list of names.
pub open spec fn names_view(names: Seq<&str>) -> Seq<Seq<char>> {
    Seq::new(names.len(), |i: int| names[i]@)
}

/// A file directly below `local/` that the schema declares: a `.bin` name
/// among the declared record files, or an `.idx` name among the declared
/// indexes.
pub open spec fn declared_local_file(
    name: Seq<char>,
    bin_paths: Seq<Seq<char>>,
    index_paths: Seq<Seq<char>>,
) -> bool {
    if spec_strip_suffix(name, ".bin"@) is Some {
        bin_paths.contains(name)
    } else if spec_strip_suffix(name, ".idx"@) is Some {
        index_paths.contains(name)
    } else {
        false
    }
}

/// A manifest path is relative, never climbs with `..`, and is either a
/// declared schema leaf directly below `local/` or a canonical pack path
/// below `.ait/objects/`.
pub open spec fn generation_path_ok(
    path: Seq<char>,
    bin_paths: Seq<Seq<char>>,
    index_paths: Seq<Seq<char>>,
) -> bool {
    if (path.len() > 0 && path[0] == '/') || scan_pieces(path, 0, 0).1 {
        false
    } else {
        match spec_strip_prefix(path, "local/"@) {
            Some(name) => scan_pieces(path, 0, 0).0 == 2 && declared_local_file(
                name,
                bin_paths,
                index_paths,
            ),
            None => match spec_strip_prefix(path, ".ait/objects/"@) {
                Some(pack) => spec_is_canonical_pack_path(pack),
                None => false,
            },
        }
    }
}

fn piece_is_component(s: &Vec<char>, start: usize, end: usize) -> (r: bool)
    requires
        start <= end <= s@.len(),
    ensures
        r == counts_as_component(s@.subrange(start as int, end as int)),
{
    end > start && !(end - start == 1 && s[start] == '.')
}

fn piece_is_parent(s: &Vec<char>, start: usize, end: usize) -> (r: bool)
    requires
        start <= end <= s@.len(),
    ensures
        r == is_parent_piece(s@.subrange(start as int, end as int)),
{
    end - start == 2 && s[start] == '.' && s[start + 1] == '.'
}

/// The component count and `..` test of a path.
fn scan_path(s: &Vec<char>) -> (r: (u64, bool))
    ensures
        r.0 == scan_pieces(s@, 0, 0).0,
        r.1 == scan_pieces(s@, 0, 0).1,
{
    let ghost full = scan_pieces(s@, 0, 0);
    let mut count: u64 = 0;
    let mut parent = false;
    let mut start: usize = 0;
    let mut i: usize = 0;
    while i < s.len()
        invariant
            full == scan_pieces(s@, 0, 0),
            start <= i <= s@.len(),
            count <= start,
            full.0 == count + scan_pieces(s@, start as int, i as int).0,
            full.1 == (parent || scan_pieces(s@, start as int, i as int).1),
        decreases s@.len() - i,
    {
        if s[i] == '/' {
            if piece_is_component(s, start, i) {
                count = count + 1;
            }
            if piece_is_parent(s, start, i) {
                parent = true;
            }
            start = i + 1;
        }
        i = i + 1;
    }
    let last_component = piece_is_component(s, start, i);
    let last_parent = piece_is_parent(s, start, i);
    (if last_component {
        count + 1
    } else {
        count
    }, parent || last_parent)
}

pub(crate) fn names_contain(names: &[&str], name: &Vec<char>) -> (r: bool)
    ensures
        r == names_view(names@).contains(name@),
{
    let mut k: usize = 0;
    while k < names.len()
        invariant
            k <= names@.len(),
            forall|j: int| 0 <= j < k ==> names@[j]@ != name@,
        decreases names@.len() - k,
    {
        if chars_eq_str(name, names[k]) {
            assert(names_view(names@)[k as int] == name@);
            return true;
        }
        k = k + 1;
    }
    proof {
        if names_view(names@).contains(name@) {
            let j = choose|j: int| 0 <= j < names_view(names@).len() && names_view(names@)[j] == name@;
            assert(names@[j]@ == name@);
        }
    }
    false
}

fn quoted_path_message(head: &str, path: &str) -> (s: String)
    ensures
        s@ == head@ + "\""@ + path@ + "\""@,
        s@.len() > 0,
{
    proof {
        reveal_strlit("\"");
    }
    let mut v = chars_of(head);
    push_str(&mut v, "\"");
    push_str(&mut v, path);
    push_str(&mut v, "\"");
    string_from_chars(&v)
}

/// Accepts a manifest path exactly when it is relative, never climbs with
/// `..`, and is either a declared schema leaf directly below `local/` or a
/// canonical pack path below `.ait/objects/`.
pub fn validate_generation_file_path(
    relative_path: &str,
    declared_bin_paths: &[&str],
    declared_index_paths: &[&str],
) -> (r: Result<(), String>)
    ensures
        r matches Err(e) ==> e@.len() > 0,
        r is Ok <==> generation_path_ok(
            relative_path@,
            names_view(declared_bin_paths@),
            names_view(declared_index_paths@),
        ),
{
    let path = chars_of(relative_path);
    let (components, has_parent) = scan_path(&path);
    if (path.len() > 0 && path[0] == '/') || has_parent {
        return Err(quoted_path_message("unsafe Binary DB generation manifest path: ", relative_path));
    }
    if let Some(name) = strip_prefix_chars(&path, "local/") {
        if components != 2 {
            return Err(
                quoted_path_message(
                    "Binary DB authority paths must be direct schema leaves: ",
                    relative_path,
                ),
            );
        }
        let allowed = if strip_suffix_chars(&name, ".bin").is_some() {
            names_contain(declared_bin_paths, &name)
        } else if strip_suffix_chars(&name, ".idx").is_some() {
            names_contain(declared_index_paths, &name)
        } else {
            false
        };
        if !allowed {
            return Err(
                quoted_path_message(
                    "Binary DB generation contains an undeclared authority path: ",
                    relative_path,
                ),
            );
        }
        return Ok(());
    }
    if let Some(pack) = strip_prefix_chars(&path, ".ait/objects/") {
        let pack_text = string_from_chars(&pack);
        if !is_canonical_pack_path(pack_text.as_str()) {
            return Err(
                quoted_path_message(
                    "Binary DB generation contains an undeclared pack path: ",
                    relative_path,
                ),
            );
        }
        return Ok(());
    }
    Err(
        quoted_path_message(
            "Binary DB generation path is outside local/ and .ait/objects/: ",
            relative_path,
        ),
    )
}

// ----- the client manifest ----------------------------------------------------------

/// The schema tag of a generation's client manifest.
pub const CLIENT_MANIFEST_SCHEMA: &'static str = "ait.binary-db-local-generation-manifest.v2";

/// One file that a client manifest declares.
#[derive(Clone, Debug, PartialEq, Eq)]
pub struct ClientManifestFile {
    pub relative_path: String,
    pub byte_size: u64,
    pub sha256: String,
}

/// The parts of a generation's client manifest that activation checks; the
/// layout ids are listed in key order.
#[derive(Clone, Debug, PartialEq, Eq)]
pub struct ClientManifest {
    pub schema: String,
    pub label: String,
    pub worker_count: usize,
    pub layout_ids: Vec<(String, u32)>,
    pub source_authority_fingerprint: String,
    pub content_fingerprint: String,
    pub files: Vec<ClientManifestFile>,
    pub validation_status: String,
}

/// The layout id of every Binary DB domain that a generation must carry, in
/// key order.
pub open spec fn required_layout_ids() -> Seq<(Seq<char>, u32)> {
    seq![("content"@, 1u32), ("line"@, 1u32), ("plan"@, 1u32), ("stash"@, 1u32), ("workflow"@, 1u32)]
}

pub open spec fn layout_ids_view(ids: Seq<(String, u32)>) -> Seq<(Seq<char>, u32)> {
    Seq::new(ids.len(), |i: int| (ids[i].0@, ids[i].1))
}

/// The manifest is of the supported schema, for the expected repository,
/// written by at least one worker, with exactly the required layout ids, a
/// passed validation and SHA-256 fingerprints.
pub open spec fn manifest_header_ok(m: ClientManifest, expected_repo_name: Seq<char>) -> bool {
    &&& m.schema@ == CLIENT_MANIFEST_SCHEMA@
    &&& m.label@ == expected_repo_name
    &&& m.worker_count != 0
    &&& layout_ids_view(m.layout_ids@) == required_layout_ids()
    &&& m.validation_status@ == "passed"@
    &&& spec_is_sha256(m.content_fingerprint@)
    &&& spec_is_sha256(m.source_authority_fingerprint@)
}

fn debug_text(v: &mut Vec<char>, s: &str)
    ensures
        final(v)@ == old(v)@ + "\""@ + s@ + "\""@,
{
    push_str(v, "\"");
    push_str(v, s);
    push_str(v, "\"");
}

fn layout_pair(name: &str, id: u32) -> (r: (String, u32))
    ensures
        r.0@ == name@,
        r.1 == id,
{
    (name.to_owned(), id)
}

/// The required layout ids, in key order.
pub fn required_layout_id_list() -> (r: Vec<(String, u32)>)
    ensures
        layout_ids_view(r@) == required_layout_ids(),
{
    let mut r: Vec<(String, u32)> = Vec::new();
    r.push(layout_pair("content", 1));
    r.push(layout_pair("line", 1));
    r.push(layout_pair("plan", 1));
    r.push(layout_pair("stash", 1));
    r.push(layout_pair("workflow", 1));
    assert(layout_ids_view(r@) =~= required_layout_ids());
    r
}

fn layout_ids_equal(a: &Vec<(String, u32)>, b: &Vec<(String, u32)>) -> (r: bool)
    ensures
        r == (layout_ids_view(a@) == layout_ids_view(b@)),
{
    if a.len() != b.len() {
        proof {
            assert(layout_ids_view(a@).len() != layout_ids_view(b@).len());
        }
        return false;
    }
    let mut i: usize = 0;
    while i < a.len()
        invariant
            a@.len() == b@.len(),
            i <= a@.len(),
            forall|k: int| 0 <= k < i ==> layout_ids_view(a@)[k] == layout_ids_view(b@)[k],
        decreases a@.len() - i,
    {
        if !str_eq(a[i].0.as_str(), b[i].0.as_str()) || a[i].1 != b[i].1 {
            proof {
                assert(layout_ids_view(a@)[i as int] != layout_ids_view(b@)[i as int]);
            }
            return false;
        }
        i = i + 1;
    }
    assert(layout_ids_view(a@) =~= layout_ids_view(b@));
    true
}

/// Checks the header of a client manifest. Succeeds exactly when the
/// manifest is of the supported schema, for the expected repository,
/// written by at least one worker, with exactly the required layout ids, a
/// passed validation and SHA-256 fingerprints.
pub fn check_client_manifest_header(manifest: &ClientManifest, expected_repo_name: &str) -> (r: Result<
    (),
    String,
>)
    ensures
        r matches Err(e) ==> e@.len() > 0,
        r is Ok <==> manifest_header_ok(*manifest, expected_repo_name@),
{
    if !str_eq(manifest.schema.as_str(), CLIENT_MANIFEST_SCHEMA) {
        proof {
            reveal_strlit("Binary DB generation manifest schema is unsupported: ");
        }
        let mut v = chars_of("Binary DB generation manifest schema is unsupported: ");
        debug_text(&mut v, manifest.schema.as_str());
        return Err(string_from_chars(&v));
    }
    if !str_eq(manifest.label.as_str(), expected_repo_name) {
        proof {
            reveal_strlit("Binary DB generation repository mismatch: expected ");
        }
        let mut v = chars_of("Binary DB generation repository mismatch: expected ");
        debug_text(&mut v, expected_repo_name);
        push_str(&mut v, ", got ");
        debug_text(&mut v, manifest.label.as_str());
        return Err(string_from_chars(&v));
    }
    if manifest.worker_count == 0 {
        proof {
            reveal_strlit("Binary DB generation worker_count must be at least 1");
        }
        return Err(owned("Binary DB generation worker_count must be at least 1"));
    }
    let required = required_layout_id_list();
    if !layout_ids_equal(&manifest.layout_ids, &required) {
        proof {
            reveal_strlit("Binary DB generation layout map is unsupported: {");
        }
        let mut v = chars_of("Binary DB generation layout map is unsupported: {");
        let mut i: usize = 0;
        while i < manifest.layout_ids.len()
            invariant
                v@.len() > 0,
            decreases manifest.layout_ids@.len() - i,
        {
            if i > 0 {
                push_str(&mut v, ", ");
            }
            debug_text(&mut v, manifest.layout_ids[i].0.as_str());
            push_str(&mut v, ": ");
            push_decimal(&mut v, manifest.layout_ids[i].1 as u64);
            i = i + 1;
        }
        push_str(&mut v, "}");
        return Err(string_from_chars(&v));
    }
    if !str_eq(manifest.validation_status.as_str(), "passed") {
        proof {
            reveal_strlit("Binary DB generation validation did not pass: ");
        }
        let mut v = chars_of("Binary DB generation validation did not pass: ");
        debug_text(&mut v, manifest.validation_status.as_str());
        return Err(string_from_chars(&v));
    }
    if !is_sha256(manifest.content_fingerprint.as_str()) {
        proof {
            reveal_strlit("Binary DB generation content_fingerprint is not SHA-256");
        }
        return Err(owned("Binary DB generation content_fingerprint is not SHA-256"));
    }
    if !is_sha256(manifest.source_authority_fingerprint.as_str()) {
        proof {
            reveal_strlit("Binary DB generation source_authority_fingerprint is not SHA-256");
        }
        return Err(owned("Binary DB generation source_authority_fingerprint is not SHA-256"));
    }
    Ok(())
}

// ----- string order -------------------------------------------------------------------

/// The order of `str`: lexicographic by character, a proper prefix first
/// (UTF-8 byte order agrees with code point order).
pub open spec fn text_lt(a: Seq<char>, b: Seq<char>) -> bool
    decreases a.len(),
{
    if a.len() == 0 {
        b.len() > 0
    } else if b.len() == 0 {
        false
    } else if a[0] != b[0] {
        (a[0] as u32) < (b[0] as u32)
    } else {
        text_lt(a.drop_first(), b.drop_first())
    }
}

proof fn lemma_text_lt_suffix(a: Seq<char>, b: Seq<char>, i: int)
    requires
        0 <= i <= a.len(),
        i <= b.len(),
        a.subrange(0, i) == b.subrange(0, i),
    ensures
        text_lt(a, b) == text_lt(a.subrange(i, a.len() as int), b.subrange(i, b.len() as int)),
    decreases i,
{
    if i > 0 {
        assert(a[0] == a.subrange(0, i)[0]);
        assert(b[0] == b.subrange(0, i)[0]);
        assert forall|k: int| 0 <= k < i - 1 implies #[trigger] a.drop_first()[k] == b.drop_first()[k] by {
            assert(a.drop_first()[k] == a[k + 1]);
            assert(b.drop_first()[k] == b[k + 1]);
            assert(a.subrange(0, i)[k + 1] == a[k + 1]);
            assert(b.subrange(0, i)[k + 1] == b[k + 1]);
            assert(a.subrange(0, i)[k + 1] == b.subrange(0, i)[k + 1]);
        }
        assert(a.drop_first().subrange(0, i - 1) =~= b.drop_first().subrange(0, i - 1));
        lemma_text_lt_suffix(a.drop_first(), b.drop_first(), i - 1);
        assert(a.drop_first().subrange(i - 1, a.len() - 1) =~= a.subrange(i, a.len() as int));
        assert(b.drop_first().subrange(i - 1, b.len() - 1) =~= b.subrange(i, b.len() as int));
    } else {
        assert(a.subrange(0, a.len() as int) =~= a);
        assert(b.subrange(0, b.len() as int) =~= b);
    }
}

/// Whether `a` sorts strictly before `b`.
pub fn text_less(a: &str, b: &str) -> (r: bool)
    ensures
        r == text_lt(a@, b@),
{
    let x = chars_of(a);
    let y = chars_of(b);
    let mut i: usize = 0;
    while i < x.len() && i < y.len()
        invariant
            x@ == a@,
            y@ == b@,
            i <= x@.len(),
            i <= y@.len(),
            x@.subrange(0, i as int) == y@.subrange(0, i as int),
        decreases x@.len() - i,
    {
        if x[i] != y[i] {
            proof {
                lemma_text_lt_suffix(x@, y@, i as int);
                assert(x@.subrange(i as int, x@.len() as int)[0] == x@[i as int]);
                assert(y@.subrange(i as int, y@.len() as int)[0] == y@[i as int]);
            }
            return (x[i] as u32) < (y[i] as u32);
        }
        assert(x@.subrange(0, i + 1) =~= x@.subrange(0, i as int).push(x@[i as int]));
        assert(y@.subrange(0, i + 1) =~= y@.subrange(0, i as int).push(y@[i as int]));
        i = i + 1;
    }
    proof {
        lemma_text_lt_suffix(x@, y@, i as int);
    }
    i == x.len() && i < y.len()
}

// ----- the declared files -------------------------------------------------------------

/// What is on disk at a path that a manifest declares.
#[derive(Clone, Debug, PartialEq, Eq)]
pub struct ObservedGenerationFile {
    pub is_file: bool,
    pub byte_size: u64,
    /// The first four bytes of the file, or all of it when it is shorter.
    pub header: Vec<u8>,
    /// The lower-case hex SHA-256 of the file's contents.
    pub sha256: String,
}

/// What a regular file with contents `bytes` shows: its size, its header
/// and the SHA-256 of its contents.
pub fn observe_generation_file(bytes: &[u8]) -> (o: ObservedGenerationFile)
    ensures
        o.is_file,
        o.byte_size == bytes@.len(),
        o.header@ == bytes@.take(if bytes@.len() < 4 { bytes@.len() as int } else { 4 }),
        o.sha256@ == spec_hex_lower(spec_sha256(bytes@)),
{
    let n: usize = if bytes.len() < 4 { bytes.len() } else { 4 };
    let mut header: Vec<u8> = Vec::new();
    let mut i: usize = 0;
    while i < n
        invariant
            n <= bytes@.len(),
            i <= n,
            header@ == bytes@.take(i as int),
        decreases n - i,
    {
        header.push(bytes[i]);
        i = i + 1;
        assert(header@ =~= bytes@.take(i as int));
    }
    ObservedGenerationFile {
        is_file: true,
        byte_size: bytes.len() as u64,
        header,
        sha256: crate::digest::sha256_hex(bytes),
    }
}

pub open spec fn is_local_path(path: Seq<char>) -> bool {
    spec_strip_prefix(path, "local/"@) is Some
}

/// A local binary file starts with layout id 1 and, when its table has a
/// fixed record size, holds whole records after the header.
pub open spec fn local_binary_file_ok(path: Seq<char>, byte_size: u64, header: Seq<u8>) -> bool {
    &&& header.len() >= 4
    &&& spec_u32_from_le_bytes(header.subrange(0, 4)) == 1
    &&& match spec_strip_prefix(path, "local/"@) {
        None => true,
        Some(name) => match fixed_record_size(name) {
            None => true,
            Some(size) => byte_size >= 4 && (byte_size - 4) % (size as int) == 0,
        },
    }
}

/// Checks the header and record alignment of a local binary file, given
/// its first bytes.
pub fn validate_local_binary_file(relative_path: &str, byte_size: u64, header: &[u8]) -> (r: Result<
    (),
    String,
>)
    ensures
        r matches Err(e) ==> e@.len() > 0,
        r is Ok <==> local_binary_file_ok(relative_path@, byte_size, header@),
{
    if header.len() < 4 {
        proof {
            reveal_strlit("Binary DB generation file has no complete layout header at ");
        }
        let mut v = chars_of("Binary DB generation file has no complete layout header at ");
        push_str(&mut v, relative_path);
        return Err(string_from_chars(&v));
    }
    let layout = u32_from_le_bytes(vstd::slice::slice_subrange(header, 0, 4));
    if layout != 1 {
        proof {
            reveal_strlit("Binary DB generation file has unsupported layout ");
        }
        let mut v = chars_of("Binary DB generation file has unsupported layout ");
        push_decimal(&mut v, layout as u64);
        push_str(&mut v, " at ");
        debug_text(&mut v, relative_path);
        return Err(string_from_chars(&v));
    }
    let path = chars_of(relative_path);
    let name = match strip_prefix_chars(&path, "local/") {
        Some(name) => name,
        None => return Ok(()),
    };
    match fixed_record_size_of(&name) {
        None => Ok(()),
        Some(record_size) => {
            if byte_size < 4 {
                proof {
                    reveal_strlit("Binary DB generation file is shorter than its header: ");
                }
                let mut v = chars_of("Binary DB generation file is shorter than its header: ");
                debug_text(&mut v, relative_path);
                return Err(string_from_chars(&v));
            }
            if (byte_size - 4) % record_size != 0 {
                proof {
                    reveal_strlit("Binary DB generation file is misaligned for ");
                }
                let mut v = chars_of("Binary DB generation file is misaligned for ");
                push_decimal(&mut v, record_size);
                push_str(&mut v, "-byte records: ");
                debug_text(&mut v, relative_path);
                return Err(string_from_chars(&v));
            }
            Ok(())
        },
    }
}

/// File `i` of a manifest has a valid path, sorts strictly after the file
/// before it, repeats no earlier path, and carries a SHA-256.
pub open spec fn manifest_file_ok(
    files: Seq<ClientManifestFile>,
    i: int,
    bin_paths: Seq<Seq<char>>,
    index_paths: Seq<Seq<char>>,
) -> bool {
    &&& generation_path_ok(files[i].relative_path@, bin_paths, index_paths)
    &&& i > 0 ==> text_lt(files[i - 1].relative_path@, files[i].relative_path@)
    &&& forall|j: int| 0 <= j < i ==> (#[trigger] files[j]).relative_path@ != files[i].relative_path@
    &&& spec_is_sha256(files[i].sha256@)
}

/// The declared file is a regular file of the declared size, is not a
/// header-only local table, is a valid local binary file when it lies below
/// `local/`, and has the declared digest.
pub open spec fn observed_file_ok(f: ClientManifestFile, o: Option<ObservedGenerationFile>) -> bool {
    match o {
        None => false,
        Some(obs) => {
            &&& obs.is_file
            &&& obs.byte_size == f.byte_size
            &&& !(is_local_path(f.relative_path@) && spec_strip_suffix(f.relative_path@, ".bin"@) is Some
                && f.byte_size <= 4)
            &&& is_local_path(f.relative_path@) ==> local_binary_file_ok(
                f.relative_path@,
                f.byte_size,
                obs.header@,
            )
            &&& obs.sha256@ == f.sha256@
        },
    }
}

/// Some declared file has the path `path`.
pub open spec fn declares(files: Seq<ClientManifestFile>, path: Seq<char>) -> bool {
    exists|i: int| 0 <= i < files.len() && files[i].relative_path@ == path
}

/// Some present path is `path`.
pub open spec fn present(actual: Seq<String>, path: Seq<char>) -> bool {
    exists|a: int| 0 <= a < actual.len() && actual[a]@ == path
}

/// The paths present are exactly the paths declared.
pub open spec fn inventory_ok(files: Seq<ClientManifestFile>, actual: Seq<String>) -> bool {
    &&& forall|a: int| 0 <= a < actual.len() ==> declares(files, (#[trigger] actual[a])@)
    &&& forall|i: int| 0 <= i < files.len() ==> present(actual, (#[trigger] files[i]).relative_path@)
}

/// The declared files as generation file entries, for the fingerprint.
pub open spec fn manifest_entries(files: Seq<ClientManifestFile>) -> Seq<GenerationFileManifest> {
    Seq::new(
        files.len(),
        |i: int|
            GenerationFileManifest {
                relative_path: files[i].relative_path,
                byte_size: files[i].byte_size,
                sha256: files[i].sha256,
                record_count: None,
            },
    )
}

/// Everything that a generation's manifest promises about the files present:
/// a valid header, valid and sorted paths, each file as declared, exactly the
/// declared inventory, and the recorded content fingerprint.
pub open spec fn generation_manifest_ok(
    m: ClientManifest,
    expected_repo_name: Seq<char>,
    bin_paths: Seq<Seq<char>>,
    index_paths: Seq<Seq<char>>,
    observed: Seq<Option<ObservedGenerationFile>>,
    actual: Seq<String>,
) -> bool {
    let files = m.files@;
    &&& manifest_header_ok(m, expected_repo_name)
    &&& observed.len() == files.len()
    &&& forall|i: int| 0 <= i < files.len() ==> #[trigger] manifest_file_ok(files, i, bin_paths, index_paths)
    &&& forall|i: int| 0 <= i < files.len() ==> #[trigger] observed_file_ok(files[i], observed[i])
    &&& inventory_ok(files, actual)
    &&& spec_hex_lower(spec_sha256(fingerprint_input(manifest_entries(files)))) == m.content_fingerprint@
}

fn check_observed_file(file: &ClientManifestFile, observed: &Option<ObservedGenerationFile>) -> (r:
    Result<(), String>)
    ensures
        r is Ok <==> observed_file_ok(*file, *observed),
        r matches Err(e) ==> e@.len() > 0,
{
    let obs = match observed {
        Some(o) => o,
        None => {
            proof {
                reveal_strlit("Binary DB generation manifest path ");
            }
            let mut v = chars_of("Binary DB generation manifest path ");
            push_str(&mut v, file.relative_path.as_str());
            push_str(&mut v, " is missing");
            return Err(string_from_chars(&v));
        },
    };
    if !obs.is_file || obs.byte_size != file.byte_size {
        proof {
            reveal_strlit("Binary DB generation file size/type mismatch at ");
        }
        let mut v = chars_of("Binary DB generation file size/type mismatch at ");
        push_str(&mut v, file.relative_path.as_str());
        return Err(string_from_chars(&v));
    }
    let path = chars_of(file.relative_path.as_str());
    let local = strip_prefix_chars(&path, "local/").is_some();
    if local && strip_suffix_chars(&path, ".bin").is_some() && file.byte_size <= 4 {
        proof {
            reveal_strlit("Binary DB generation contains forbidden header-only file ");
        }
        let mut v = chars_of("Binary DB generation contains forbidden header-only file ");
        debug_text(&mut v, file.relative_path.as_str());
        return Err(string_from_chars(&v));
    }
    if local {
        validate_local_binary_file(file.relative_path.as_str(), file.byte_size, obs.header.as_slice())?;
    }
    if !str_eq(obs.sha256.as_str(), file.sha256.as_str()) {
        proof {
            reveal_strlit("Binary DB generation checksum mismatch at ");
        }
        let mut v = chars_of("Binary DB generation checksum mismatch at ");
        push_str(&mut v, file.relative_path.as_str());
        return Err(string_from_chars(&v));
    }
    Ok(())
}

/// Two entries that the fingerprint cannot tell apart.
pub open spec fn same_entry(a: GenerationFileManifest, b: GenerationFileManifest) -> bool {
    a.relative_path@ == b.relative_path@ && a.byte_size == b.byte_size && a.sha256@ == b.sha256@
}

proof fn lemma_fingerprint_input_views(a: Seq<GenerationFileManifest>, b: Seq<GenerationFileManifest>)
    requires
        a.len() == b.len(),
        forall|x: int| 0 <= x < a.len() ==> same_entry(#[trigger] a[x], b[x]),
    ensures
        fingerprint_input(a) == fingerprint_input(b),
    decreases a.len(),
{
    if a.len() > 0 {
        assert forall|x: int| 0 <= x < a.drop_last().len() implies same_entry(
            #[trigger] a.drop_last()[x],
            b.drop_last()[x],
        ) by {
            assert(same_entry(a[x], b[x]));
        }
        lemma_fingerprint_input_views(a.drop_last(), b.drop_last());
        assert(same_entry(a[a.len() - 1], b[b.len() - 1]));
    }
}

fn manifest_entry(file: &ClientManifestFile) -> (e: GenerationFileManifest)
    ensures
        e.relative_path@ == file.relative_path@,
        e.byte_size == file.byte_size,
        e.sha256@ == file.sha256@,
        e.record_count is None,
{
    GenerationFileManifest {
        relative_path: file.relative_path.clone(),
        byte_size: file.byte_size,
        sha256: file.sha256.clone(),
        record_count: None,
    }
}

/// Whether some declared file has the path `path`.
fn declares_path(files: &Vec<ClientManifestFile>, path: &str) -> (r: bool)
    ensures
        r == declares(files@, path@),
{
    let mut i: usize = 0;
    while i < files.len()
        invariant
            i <= files@.len(),
            forall|k: int| 0 <= k < i ==> (#[trigger] files@[k]).relative_path@ != path@,
        decreases files@.len() - i,
    {
        if str_eq(files[i].relative_path.as_str(), path) {
            return true;
        }
        i = i + 1;
    }
    false
}

/// Whether some present path is `path`.
fn has_path(actual: &[String], path: &str) -> (r: bool)
    ensures
        r == present(actual@, path@),
{
    let mut a: usize = 0;
    while a < actual.len()
        invariant
            a <= actual@.len(),
            forall|k: int| 0 <= k < a ==> (#[trigger] actual@[k])@ != path@,
        decreases actual@.len() - a,
    {
        if str_eq(actual[a].as_str(), path) {
            return true;
        }
        a = a + 1;
    }
    false
}

/// Checks a generation's client manifest against the files present: its
/// header, every declared path, each declared file as observed on disk
/// (`observed[i]` for file `i`, `None` when the path is missing), the
/// inventory of present paths, and the recorded content fingerprint.
/// Succeeds exactly when all of them hold.
pub fn verify_generation_manifest(
    manifest: &ClientManifest,
    expected_repo_name: &str,
    declared_bin_paths: &[&str],
    declared_index_paths: &[&str],
    observed: &[Option<ObservedGenerationFile>],
    actual_paths: &[String],
) -> (r: Result<(), String>)
    ensures
        r matches Err(e) ==> e@.len() > 0,
        r is Ok <==> generation_manifest_ok(
            *manifest,
            expected_repo_name@,
            names_view(declared_bin_paths@),
            names_view(declared_index_paths@),
            observed@,
            actual_paths@,
        ),
{
    let ghost files = manifest.files@;
    let ghost bins = names_view(declared_bin_paths@);
    let ghost idxs = names_view(declared_index_paths@);
    check_client_manifest_header(manifest, expected_repo_name)?;
    if observed.len() != manifest.files.len() {
        proof {
            reveal_strlit("Binary DB generation observations do not match the manifest inventory");
        }
        return Err(owned("Binary DB generation observations do not match the manifest inventory"));
    }
    let mut i: usize = 0;
    while i < manifest.files.len()
        invariant
            files == manifest.files@,
            bins == names_view(declared_bin_paths@),
            idxs == names_view(declared_index_paths@),
            observed@.len() == files.len(),
            i <= files.len(),
            forall|k: int| 0 <= k < i ==> #[trigger] manifest_file_ok(files, k, bins, idxs),
            forall|k: int| 0 <= k < i ==> #[trigger] observed_file_ok(files[k], observed@[k]),
        decreases files.len() - i,
    {
        let file = &manifest.files[i];
        let ghost ok = manifest_file_ok(files, i as int, bins, idxs);
        if let Err(e) = validate_generation_file_path(
            file.relative_path.as_str(),
            declared_bin_paths,
            declared_index_paths,
        ) {
            assert(!ok);
            return Err(e);
        }
        if i > 0 && !text_less(manifest.files[i - 1].relative_path.as_str(), file.relative_path.as_str()) {
            assert(!ok);
            proof {
                reveal_strlit("Binary DB generation file inventory must be strictly sorted");
            }
            return Err(owned("Binary DB generation file inventory must be strictly sorted"));
        }
        let mut j: usize = 0;
        while j < i
            invariant
                files == manifest.files@,
                bins == names_view(declared_bin_paths@),
                idxs == names_view(declared_index_paths@),
                i < files.len(),
                *file == files[i as int],
                j <= i,
                forall|k: int| 0 <= k < j ==> (#[trigger] files[k]).relative_path@ != files[i as int].relative_path@,
            decreases i - j,
        {
            if str_eq(manifest.files[j].relative_path.as_str(), file.relative_path.as_str()) {
                assert(!manifest_file_ok(files, i as int, bins, idxs));
                proof {
                    reveal_strlit("duplicate Binary DB generation file inventory path: ");
                }
                let mut v = chars_of("duplicate Binary DB generation file inventory path: ");
                debug_text(&mut v, file.relative_path.as_str());
                return Err(string_from_chars(&v));
            }
            j = j + 1;
        }
        if !is_sha256(file.sha256.as_str()) {
            assert(!ok);
            proof {
                reveal_strlit("Binary DB generation file has invalid SHA-256: ");
            }
            let mut v = chars_of("Binary DB generation file has invalid SHA-256: ");
            debug_text(&mut v, file.relative_path.as_str());
            return Err(string_from_chars(&v));
        }
        assert(ok);
        if let Err(e) = check_observed_file(file, &observed[i]) {
            assert(!observed_file_ok(files[i as int], observed@[i as int]));
            return Err(e);
        }
        i = i + 1;
    }
    let mut a: usize = 0;
    while a < actual_paths.len()
        invariant
            files == manifest.files@,
            a <= actual_paths@.len(),
            forall|k: int| 0 <= k < a ==> declares(files, (#[trigger] actual_paths@[k])@),
        decreases actual_paths@.len() - a,
    {
        if !declares_path(&manifest.files, actual_paths[a].as_str()) {
            assert(!inventory_ok(files, actual_paths@));
            proof {
                reveal_strlit("Binary DB generation file inventory mismatch: undeclared=Some(");
            }
            let mut v = chars_of("Binary DB generation file inventory mismatch: undeclared=Some(");
            debug_text(&mut v, actual_paths[a].as_str());
            push_str(&mut v, ")");
            return Err(string_from_chars(&v));
        }
        a = a + 1;
    }
    let mut k: usize = 0;
    while k < manifest.files.len()
        invariant
            files == manifest.files@,
            k <= files.len(),
            forall|i: int| 0 <= i < k ==> present(actual_paths@, (#[trigger] files[i]).relative_path@),
        decreases files.len() - k,
    {
        if !has_path(actual_paths, manifest.files[k].relative_path.as_str()) {
            assert(!present(actual_paths@, files[k as int].relative_path@));
            assert(!inventory_ok(files, actual_paths@));
            proof {
                reveal_strlit("Binary DB generation file inventory mismatch: undeclared=None missing=Some(");
            }
            let mut v = chars_of("Binary DB generation file inventory mismatch: undeclared=None missing=Some(");
            debug_text(&mut v, manifest.files[k].relative_path.as_str());
            push_str(&mut v, ")");
            return Err(string_from_chars(&v));
        }
        k = k + 1;
    }
    let mut entries: Vec<GenerationFileManifest> = Vec::new();
    let mut e: usize = 0;
    while e < manifest.files.len()
        invariant
            files == manifest.files@,
            e <= files.len(),
            entries@.len() == e,
            forall|x: int|
                0 <= x < e ==> same_entry(#[trigger] entries@[x], manifest_entries(files)[x]),
        decreases files.len() - e,
    {
        let entry = manifest_entry(&manifest.files[e]);
        entries.push(entry);
        e = e + 1;
    }
    proof {
        lemma_fingerprint_input_views(entries@, manifest_entries(files));
    }
    let calculated = fingerprint_files(entries.as_slice());
    if !str_eq(calculated.as_str(), manifest.content_fingerprint.as_str()) {
        proof {
            reveal_strlit("Binary DB generation fingerprint mismatch: manifest=");
        }
        let mut v = chars_of("Binary DB generation fingerprint mismatch: manifest=");
        push_str(&mut v, manifest.content_fingerprint.as_str());
        push_str(&mut v, " calculated=");
        push_str(&mut v, calculated.as_str());
        return Err(string_from_chars(&v));
    }
    Ok(())
}

// ----- activation requests and results --------------------------------------------

/// What an activation is asked to do; paths are given as text.
#[derive(Clone, Debug, PartialEq, Eq)]
pub struct BinaryDbGenerationActivationOptions {
    pub repo_root: String,
    pub generation_root: String,
    pub expected_current_authority_fingerprint: Option<String>,
}

/// What an activation did.
#[derive(Clone, Debug, PartialEq, Eq)]
pub struct BinaryDbGenerationActivationReport {
    pub repo_root: String,
    pub generation_root: String,
    pub repo_name: String,
    pub authority_root: String,
    pub pack_root: String,
    pub content_fingerprint: String,
    pub retired_direct_authority: bool,
    pub retained_previous_authority: Option<String>,
    pub activation_strategy: String,
    pub single_syscall_atomic: bool,
    pub activation_lock_protected: bool,
}

/// A generation admitted as the repository's active authority.
#[derive(Clone, Debug, PartialEq, Eq)]
pub struct ActivatedBinaryDbGeneration {
    pub generation_root: String,
    pub authority_root: String,
    pub pack_root: String,
    pub repo_name: String,
    pub content_fingerprint: String,
}

/// A relative path pushed onto a base path: a separator between them unless
/// the base is empty or already ends with one.
pub open spec fn spec_path_join(base: Seq<char>, rel: Seq<char>) -> Seq<char> {
    if base.len() == 0 {
        rel
    } else if base[base.len() - 1] == '/' {
        base + rel
    } else {
        base + seq!['/'] + rel
    }
}

pub(crate) fn path_join(base: &str, rel: &str) -> (r: String)
    ensures
        r@ == spec_path_join(base@, rel@),
{
    let mut v = chars_of(base);
    if v.len() > 0 && v[v.len() - 1] != '/' {
        v.push('/');
    }
    push_str(&mut v, rel);
    string_from_chars(&v)
}

/// The directory whose lock guards activations of the repository at
/// `repo_root`: `.ait/.binary-db-generation-activation` below it.
pub fn binary_db_activation_lock_root(repo_root: &str) -> (r: String)
    ensures
        r@ == spec_path_join(
            spec_path_join(repo_root@, ".ait"@),
            ".binary-db-generation-activation"@,
        ),
{
    let ait = path_join(repo_root, ".ait");
    path_join(ait.as_str(), ".binary-db-generation-activation")
}

/// The part of a generation's manifest that an activation checks before it
/// stages anything: the supported schema, the expected repository, and a
/// SHA-256 source fingerprint, which it returns.
pub fn check_activation_precondition(manifest: &ClientManifest, expected_repo_name: &str) -> (r:
    Result<String, String>)
    ensures
        r matches Err(e) ==> e@.len() > 0,
        r is Ok <==> manifest.schema@ == CLIENT_MANIFEST_SCHEMA@ && manifest.label@ == expected_repo_name@
            && spec_is_sha256(manifest.source_authority_fingerprint@),
        r matches Ok(f) ==> f@ == manifest.source_authority_fingerprint@,
{
    if !str_eq(manifest.schema.as_str(), CLIENT_MANIFEST_SCHEMA) {
        proof {
            reveal_strlit("Binary DB generation manifest schema is unsupported: ");
        }
        let mut v = chars_of("Binary DB generation manifest schema is unsupported: ");
        debug_text(&mut v, manifest.schema.as_str());
        return Err(string_from_chars(&v));
    }
    if !str_eq(manifest.label.as_str(), expected_repo_name) {
        proof {
            reveal_strlit("Binary DB generation repository mismatch: expected ");
        }
        let mut v = chars_of("Binary DB generation repository mismatch: expected ");
        debug_text(&mut v, expected_repo_name);
        push_str(&mut v, ", got ");
        debug_text(&mut v, manifest.label.as_str());
        return Err(string_from_chars(&v));
    }
    if !is_sha256(manifest.source_authority_fingerprint.as_str()) {
        proof {
            reveal_strlit("Binary DB generation source_authority_fingerprint is not SHA-256");
        }
        return Err(owned("Binary DB generation source_authority_fingerprint is not SHA-256"));
    }
    Ok(manifest.source_authority_fingerprint.clone())
}

// ----- the direct authority directory ----------------------------------------------

/// What kind of directory entry a path is, without following links.
#[derive(Clone, Copy, Debug, PartialEq, Eq, Structural)]
pub enum AuthorityEntryKind {
    File,
    Directory,
    Symlink,
    Other,
}

/// One entry of a directory listing.
#[derive(Clone, Debug, PartialEq, Eq)]
pub struct LockEntry {
    pub name: String,
    pub kind: AuthorityEntryKind,
}

/// The lock files that a live Binary DB may hold.
pub open spec fn active_lock_files() -> Seq<Seq<char>> {
    seq![
        "content.write.lock"@,
        "gc.write.lock"@,
        "global.write.lock"@,
        "plan.write.lock"@,
        "remote-content.write.lock"@,
        "remote-plan.write.lock"@,
        "snapshot.write.lock"@,
    ]
}

/// The `.locks` directory of an authority is empty, or holds only the
/// directory `binary-db` with at most the active lock files, each a file.
pub open spec fn lock_directory_ok(root: Seq<LockEntry>, binary: Seq<LockEntry>) -> bool {
    root.len() == 0 || {
        &&& root.len() == 1
        &&& root[0].name@ == "binary-db"@
        &&& root[0].kind == AuthorityEntryKind::Directory
        &&& binary.len() <= 7
        &&& forall|i: int|
            0 <= i < binary.len() ==> active_lock_files().contains((#[trigger] binary[i]).name@)
                && binary[i].kind == AuthorityEntryKind::File
    }
}

/// Whether `name` is one of the repository's write locks: the content, gc,
/// global, plan, remote-content, remote-plan and snapshot write locks.
pub open spec fn is_repository_write_lock(name: Seq<char>) -> bool {
    ||| name == "content.write.lock"@
    ||| name == "gc.write.lock"@
    ||| name == "global.write.lock"@
    ||| name == "plan.write.lock"@
    ||| name == "remote-content.write.lock"@
    ||| name == "remote-plan.write.lock"@
    ||| name == "snapshot.write.lock"@
}

/// A `.locks` directory that holds only `binary-db` is accepted exactly
/// when `binary-db` holds at most seven entries, each a file named after one
/// of the repository's write locks; one entry with any other name or kind
/// is refused.
pub proof fn law_lock_directory_holds_the_repository_write_locks(
    root: Seq<LockEntry>,
    binary: Seq<LockEntry>,
)
    requires
        root.len() == 1,
        root[0].name@ == "binary-db"@,
        root[0].kind == AuthorityEntryKind::Directory,
    ensures
        lock_directory_ok(root, binary) <==> binary.len() <= 7 && forall|i: int|
            0 <= i < binary.len() ==> is_repository_write_lock((#[trigger] binary[i]).name@)
                && binary[i].kind == AuthorityEntryKind::File,
{
    let locks = active_lock_files();
    assert forall|n: Seq<char>| locks.contains(n) <==> is_repository_write_lock(n) by {
        if is_repository_write_lock(n) {
            if n == "content.write.lock"@ {
                assert(locks[0] == n);
            } else if n == "gc.write.lock"@ {
                assert(locks[1] == n);
            } else if n == "global.write.lock"@ {
                assert(locks[2] == n);
            } else if n == "plan.write.lock"@ {
                assert(locks[3] == n);
            } else if n == "remote-content.write.lock"@ {
                assert(locks[4] == n);
            } else if n == "remote-plan.write.lock"@ {
                assert(locks[5] == n);
            } else {
                assert(locks[6] == n);
            }
        }
        if locks.contains(n) {
            let j = choose|j: int| 0 <= j < locks.len() && locks[j] == n;
            assert(0 <= j < 7);
        }
    }
}

fn is_active_lock_file(name: &str) -> (r: bool)
    ensures
        r == active_lock_files().contains(name@),
{
    let names: [&str; 7] = [
        "content.write.lock",
        "gc.write.lock",
        "global.write.lock",
        "plan.write.lock",
        "remote-content.write.lock",
        "remote-plan.write.lock",
        "snapshot.write.lock",
    ];
    let mut k: usize = 0;
    while k < 7
        invariant
            k <= 7,
            forall|j: int| 0 <= j < 7 ==> (#[trigger] names@[j])@ == active_lock_files()[j],
            forall|j: int| 0 <= j < k ==> active_lock_files()[j] != name@,
        decreases 7 - k,
    {
        if str_eq(names[k], name) {
            assert(active_lock_files()[k as int] == name@);
            return true;
        }
        k = k + 1;
    }
    proof {
        if active_lock_files().contains(name@) {
            let j = choose|j: int| 0 <= j < 7 && active_lock_files()[j] == name@;
            assert(active_lock_files()[j] == name@);
        }
    }
    false
}

/// Checks the `.locks` directory of an authority, given the entries of the
/// directory (`root`) and of `.locks/binary-db` (`binary`).
pub fn validate_lock_directory(root: &[LockEntry], binary: &[LockEntry]) -> (r: Result<(), String>)
    ensures
        r matches Err(e) ==> e@.len() > 0,
        r is Ok <==> lock_directory_ok(root@, binary@),
{
    if root.len() == 0 {
        return Ok(());
    }
    if root.len() != 1 || !str_eq(root[0].name.as_str(), "binary-db") {
        proof {
            reveal_strlit("Binary DB authority contains an undeclared lock directory entry under .locks");
        }
        return Err(
            owned("Binary DB authority contains an undeclared lock directory entry under .locks"),
        );
    }
    if root[0].kind != AuthorityEntryKind::Directory {
        proof {
            reveal_strlit("Binary DB lock root .locks/binary-db must be a direct directory");
        }
        return Err(owned("Binary DB lock root .locks/binary-db must be a direct directory"));
    }
    if binary.len() > 7 {
        proof {
            reveal_strlit("Binary DB lock root contains too many entries: .locks/binary-db");
        }
        return Err(owned("Binary DB lock root contains too many entries: .locks/binary-db"));
    }
    let mut i: usize = 0;
    while i < binary.len()
        invariant
            root@.len() == 1,
            root@[0].name@ == "binary-db"@,
            root@[0].kind == AuthorityEntryKind::Directory,
            binary@.len() <= 7,
            i <= binary@.len(),
            forall|k: int|
                0 <= k < i ==> active_lock_files().contains((#[trigger] binary@[k]).name@)
                    && binary@[k].kind == AuthorityEntryKind::File,
        decreases binary@.len() - i,
    {
        if !is_active_lock_file(binary[i].name.as_str()) || binary[i].kind != AuthorityEntryKind::File {
            proof {
                reveal_strlit("Binary DB lock root contains an undeclared entry: ");
            }
            let mut v = chars_of("Binary DB lock root contains an undeclared entry: ");
            push_str(&mut v, binary[i].name.as_str());
            return Err(string_from_chars(&v));
        }
        i = i + 1;
    }
    Ok(())
}

/// One entry of an authority directory: its name, kind, size, and first
/// bytes (up to four).
#[derive(Clone, Debug, PartialEq, Eq)]
pub struct AuthorityEntry {
    pub name: String,
    pub kind: AuthorityEntryKind,
    pub byte_size: u64,
    pub header: Vec<u8>,
}

/// An entry of a direct authority is either the valid `.locks` directory or
/// a declared schema file that is more than a header and has a valid layout.
pub open spec fn authority_entry_ok(
    e: AuthorityEntry,
    locks: Seq<LockEntry>,
    lock_binary: Seq<LockEntry>,
    bin_paths: Seq<Seq<char>>,
    index_paths: Seq<Seq<char>>,
) -> bool {
    if e.kind == AuthorityEntryKind::Directory {
        e.name@ == ".locks"@ && lock_directory_ok(locks, lock_binary)
    } else {
        &&& e.kind == AuthorityEntryKind::File
        &&& declared_local_file(e.name@, bin_paths, index_paths)
        &&& !(spec_strip_suffix(e.name@, ".bin"@) is Some && e.byte_size <= 4)
        &&& local_binary_file_ok("local/"@ + e.name@, e.byte_size, e.header@)
    }
}

/// The bytes that the authority state fingerprint hashes: for each file in
/// order, its UTF-8 name, a zero byte, its size as little-endian `u64` and a
/// zero byte; directories contribute nothing.
pub open spec fn authority_state_input(entries: Seq<AuthorityEntry>) -> Seq<u8>
    decreases entries.len(),
{
    if entries.len() == 0 {
        Seq::empty()
    } else {
        let e = entries.last();
        authority_state_input(entries.drop_last()) + if e.kind == AuthorityEntryKind::Directory {
            Seq::empty()
        } else {
            encode_utf8(e.name@) + seq![0u8] + le64(e.byte_size) + seq![0u8]
        }
    }
}

/// Checks a direct authority directory, given its entries in name order and,
/// for its `.locks` directory, the entries of `.locks` and of
/// `.locks/binary-db`; returns the fingerprint of its state. Succeeds exactly
/// when every entry meets the authority rules.
pub fn validate_direct_authority(
    entries: &[AuthorityEntry],
    locks: &[LockEntry],
    lock_binary: &[LockEntry],
    declared_bin_paths: &[&str],
    declared_index_paths: &[&str],
) -> (r: Result<String, String>)
    ensures
        r matches Err(e) ==> e@.len() > 0,
        r is Ok <==> forall|i: int|
            0 <= i < entries@.len() ==> #[trigger] authority_entry_ok(
                entries@[i],
                locks@,
                lock_binary@,
                names_view(declared_bin_paths@),
                names_view(declared_index_paths@),
            ),
        r matches Ok(f) ==> f@ == spec_hex_lower(spec_sha256(authority_state_input(entries@))),
{
    let ghost bins = names_view(declared_bin_paths@);
    let ghost idxs = names_view(declared_index_paths@);
    let mut input: Vec<u8> = Vec::new();
    let mut i: usize = 0;
    while i < entries.len()
        invariant
            bins == names_view(declared_bin_paths@),
            idxs == names_view(declared_index_paths@),
            i <= entries@.len(),
            forall|k: int|
                0 <= k < i ==> #[trigger] authority_entry_ok(entries@[k], locks@, lock_binary@, bins, idxs),
            input@ == authority_state_input(entries@.subrange(0, i as int)),
        decreases entries@.len() - i,
    {
        let entry = &entries[i];
        let ghost ok = authority_entry_ok(entries@[i as int], locks@, lock_binary@, bins, idxs);
        if entry.kind == AuthorityEntryKind::Symlink {
            assert(!ok);
            proof {
                reveal_strlit("Binary DB authority contains a forbidden symbolic link: ");
            }
            let mut v = chars_of("Binary DB authority contains a forbidden symbolic link: ");
            push_str(&mut v, entry.name.as_str());
            return Err(string_from_chars(&v));
        }
        if entry.kind == AuthorityEntryKind::Directory {
            if !str_eq(entry.name.as_str(), ".locks") {
                assert(!ok);
                proof {
                    reveal_strlit("Binary DB authority contains an undeclared directory: ");
                }
                let mut v = chars_of("Binary DB authority contains an undeclared directory: ");
                push_str(&mut v, entry.name.as_str());
                return Err(string_from_chars(&v));
            }
            if let Err(e) = validate_lock_directory(locks, lock_binary) {
                assert(!ok);
                return Err(e);
            }
            proof {
                let prefix = entries@.subrange(0, i + 1);
                assert(prefix.drop_last() =~= entries@.subrange(0, i as int));
                assert(input@ =~= authority_state_input(prefix));
            }
            i = i + 1;
            continue;
        }
        if entry.kind != AuthorityEntryKind::File {
            assert(!ok);
            proof {
                reveal_strlit("Binary DB authority contains a non-file entry: ");
            }
            let mut v = chars_of("Binary DB authority contains a non-file entry: ");
            push_str(&mut v, entry.name.as_str());
            return Err(string_from_chars(&v));
        }
        let name = chars_of(entry.name.as_str());
        let is_bin = strip_suffix_chars(&name, ".bin").is_some();
        let allowed = if is_bin {
            names_contain(declared_bin_paths, &name)
        } else if strip_suffix_chars(&name, ".idx").is_some() {
            names_contain(declared_index_paths, &name)
        } else {
            false
        };
        if !allowed {
            assert(!ok);
            proof {
                reveal_strlit("Binary DB authority contains an undeclared schema path: ");
            }
            let mut v = chars_of("Binary DB authority contains an undeclared schema path: ");
            push_str(&mut v, entry.name.as_str());
            return Err(string_from_chars(&v));
        }
        if is_bin && entry.byte_size <= 4 {
            assert(!ok);
            proof {
                reveal_strlit("Binary DB authority contains forbidden header-only file ");
            }
            let mut v = chars_of("Binary DB authority contains forbidden header-only file ");
            debug_text(&mut v, entry.name.as_str());
            return Err(string_from_chars(&v));
        }
        let local = crate::text::cat2("local/", entry.name.as_str());
        if let Err(e) = validate_local_binary_file(local.as_str(), entry.byte_size, entry.header.as_slice()) {
            assert(!ok);
            return Err(e);
        }
        assert(ok);
        push_slice(&mut input, entry.name.as_str().as_bytes());
        input.push(0);
        push_u64(&mut input, entry.byte_size);
        input.push(0);
        proof {
            let prefix = entries@.subrange(0, i + 1);
            assert(prefix.drop_last() =~= entries@.subrange(0, i as int));
            assert(prefix.last() == entries@[i as int]);
            assert(input@ =~= authority_state_input(prefix));
        }
        i = i + 1;
    }
    proof {
        assert(entries@.subrange(0, entries@.len() as int) =~= entries@);
    }
    let digest = sha256_digest(input.as_slice());
    Ok(crate::text::hex_lower(&digest))
}

/// An entry of an authority directory with the SHA-256 of its contents.
#[derive(Clone, Debug, PartialEq, Eq)]
pub struct AuthorityFileDigest {
    pub name: String,
    pub kind: AuthorityEntryKind,
    pub byte_size: u64,
    pub sha256: String,
}

/// The digest entry of an authority entry named `name` with contents
/// `bytes`.
pub fn authority_file_digest(name: &str, kind: AuthorityEntryKind, bytes: &[u8]) -> (d: AuthorityFileDigest)
    ensures
        d.name@ == name@,
        d.kind == kind,
        d.byte_size == bytes@.len(),
        d.sha256@ == spec_hex_lower(spec_sha256(bytes@)),
{
    AuthorityFileDigest {
        name: owned(name),
        kind,
        byte_size: bytes.len() as u64,
        sha256: crate::digest::sha256_hex(bytes),
    }
}

/// The bytes that the authority contents fingerprint hashes: for each file
/// in order, its UTF-8 name, a zero byte, its size as little-endian `u64`,
/// its UTF-8 digest and a zero byte; directories contribute nothing.
pub open spec fn authority_contents_input(entries: Seq<AuthorityFileDigest>) -> Seq<u8>
    decreases entries.len(),
{
    if entries.len() == 0 {
        Seq::empty()
    } else {
        let e = entries.last();
        authority_contents_input(entries.drop_last()) + if e.kind == AuthorityEntryKind::Directory {
            Seq::empty()
        } else {
            encode_utf8(e.name@) + seq![0u8] + le64(e.byte_size) + encode_utf8(e.sha256@) + seq![0u8]
        }
    }
}

/// The fingerprint of an authority's contents, given its entries in name
/// order. Succeeds exactly when every entry is a file or the `.locks`
/// directory.
pub fn fingerprint_direct_authority_contents(entries: &[AuthorityFileDigest]) -> (r: Result<
    String,
    String,
>)
    ensures
        r matches Err(e) ==> e@.len() > 0,
        r is Ok <==> forall|i: int|
            0 <= i < entries@.len() ==> (#[trigger] entries@[i]).kind == AuthorityEntryKind::File || (
            entries@[i].kind == AuthorityEntryKind::Directory && entries@[i].name@ == ".locks"@),
        r matches Ok(f) ==> f@ == spec_hex_lower(spec_sha256(authority_contents_input(entries@))),
{
    let mut input: Vec<u8> = Vec::new();
    let mut i: usize = 0;
    while i < entries.len()
        invariant
            i <= entries@.len(),
            forall|k: int|
                0 <= k < i ==> (#[trigger] entries@[k]).kind == AuthorityEntryKind::File || (
                entries@[k].kind == AuthorityEntryKind::Directory && entries@[k].name@ == ".locks"@),
            input@ == authority_contents_input(entries@.subrange(0, i as int)),
        decreases entries@.len() - i,
    {
        let entry = &entries[i];
        let prefix_len = i + 1;
        if entry.kind == AuthorityEntryKind::Directory && str_eq(entry.name.as_str(), ".locks") {
            proof {
                let prefix = entries@.subrange(0, prefix_len as int);
                assert(prefix.drop_last() =~= entries@.subrange(0, i as int));
                assert(input@ =~= authority_contents_input(prefix));
            }
            i = i + 1;
            continue;
        }
        if entry.kind != AuthorityEntryKind::File {
            proof {
                reveal_strlit("Binary DB authority fingerprint encountered a non-file entry: ");
            }
            let mut v = chars_of("Binary DB authority fingerprint encountered a non-file entry: ");
            push_str(&mut v, entry.name.as_str());
            return Err(string_from_chars(&v));
        }
        push_slice(&mut input, entry.name.as_str().as_bytes());
        input.push(0);
        push_u64(&mut input, entry.byte_size);
        push_slice(&mut input, entry.sha256.as_str().as_bytes());
        input.push(0);
        proof {
            let prefix = entries@.subrange(0, prefix_len as int);
            assert(prefix.drop_last() =~= entries@.subrange(0, i as int));
            assert(prefix.last() == entries@[i as int]);
            assert(input@ =~= authority_contents_input(prefix));
        }
        i = i + 1;
    }
    proof {
        assert(entries@.subrange(0, entries@.len() as int) =~= entries@);
    }
    let digest = sha256_digest(input.as_slice());
    Ok(crate::text::hex_lower(&digest))
}

/// The bytes hashed for the state of an absent authority.
pub open spec fn absent_authority_state_input() -> Seq<u8> {
    encode_utf8("ait.binary-db-authority-state.v1"@) + seq![0u8] + encode_utf8("absent"@)
}

/// The fingerprint that stands for an authority that does not exist.
pub fn absent_authority_state_fingerprint() -> (r: String)
    ensures
        r@ == spec_hex_lower(spec_sha256(absent_authority_state_input())),
{
    let mut input: Vec<u8> = Vec::new();
    push_slice(&mut input, "ait.binary-db-authority-state.v1".as_bytes());
    input.push(0);
    push_slice(&mut input, "absent".as_bytes());
    assert(input@ =~= absent_authority_state_input());
    let digest = sha256_digest(input.as_slice());
    crate::text::hex_lower(&digest)
}

// ----- activation decisions -------------------------------------------------------

/// The fingerprint the current authority must have for an activation: the
/// one the caller expects, or else the one the generation was captured from.
pub open spec fn expected_authority_fingerprint(
    expected_current: Option<Seq<char>>,
    captured_source: Seq<char>,
) -> Seq<char> {
    match expected_current {
        Some(e) => e,
        None => captured_source,
    }
}

pub open spec fn opt_text(v: Option<&str>) -> Option<Seq<char>> {
    match v {
        Some(s) => Some(s@),
        None => None,
    }
}

/// Refuses a stale generation: the expected fingerprint (the caller's, or
/// else the captured source's) must be a SHA-256 digest and the current
/// authority must still have it.
pub fn check_activation_freshness(
    expected_current: Option<&str>,
    captured_source: &str,
    current_authority: &str,
) -> (r: Result<(), String>)
    ensures
        r matches Err(e) ==> e@.len() > 0,
        r is Ok <==> spec_is_sha256(expected_authority_fingerprint(opt_text(expected_current), captured_source@))
            && current_authority@ == expected_authority_fingerprint(opt_text(expected_current), captured_source@),
{
    let expected = match expected_current {
        Some(e) => e,
        None => captured_source,
    };
    if !is_sha256(expected) {
        proof {
            reveal_strlit("Binary DB activation expected_current_authority_fingerprint is not SHA-256");
        }
        return Err(owned("Binary DB activation expected_current_authority_fingerprint is not SHA-256"));
    }
    if !str_eq(current_authority, expected) {
        let mut v = chars_of(
            "stale Binary DB generation: current authority fingerprint changed after capture: expected=",
        );
        push_str(&mut v, expected);
        push_str(&mut v, " actual=");
        push_str(&mut v, current_authority);
        return Err(string_from_chars(&v));
    }
    Ok(())
}

/// A generation is refused once the authority it was captured from has
/// changed: with no explicit expectation, the freshness check rejects every
/// current fingerprint other than the captured one.
pub proof fn law_stale_generation_is_refused(captured_source: Seq<char>, current_authority: Seq<char>)
    requires
        current_authority != captured_source,
    ensures
        !(spec_is_sha256(expected_authority_fingerprint(None, captured_source)) && current_authority
            == expected_authority_fingerprint(None, captured_source)),
{
}

/// How an activation put the new authority in place.
#[derive(Clone, Copy, Debug, PartialEq, Eq)]
pub enum AuthorityReplacementStrategy {
    AtomicExchange,
    ActivationLockTwoPhaseRename,
    RenameIntoEmpty,
}

impl AuthorityReplacementStrategy {
    /// The name recorded in an activation report.
    pub fn persisted_name(self) -> (r: &'static str)
        ensures
            r@ == match self {
                AuthorityReplacementStrategy::AtomicExchange => "atomic_exchange"@,
                AuthorityReplacementStrategy::ActivationLockTwoPhaseRename => "activation_lock_two_phase_rename"@,
                AuthorityReplacementStrategy::RenameIntoEmpty => "rename_into_empty"@,
            },
    {
        match self {
            AuthorityReplacementStrategy::AtomicExchange => "atomic_exchange",
            AuthorityReplacementStrategy::ActivationLockTwoPhaseRename => "activation_lock_two_phase_rename",
            AuthorityReplacementStrategy::RenameIntoEmpty => "rename_into_empty",
        }
    }

    /// Whether one system call replaced the authority.
    pub fn single_syscall_atomic(self) -> (r: bool)
        ensures
            r == !(self is ActivationLockTwoPhaseRename),
    {
        match self {
            AuthorityReplacementStrategy::AtomicExchange => true,
            AuthorityReplacementStrategy::ActivationLockTwoPhaseRename => false,
            AuthorityReplacementStrategy::RenameIntoEmpty => true,
        }
    }
}

/// The message of a failed activation: its cause, then how the rollback of
/// the direct authority ended.
pub fn activation_failure(primary: &str, rollback: &Result<(), String>) -> (r: String)
    ensures
        r@ == primary@ + "; "@ + match rollback {
            Ok(()) => "direct authority rollback completed"@,
            Err(e) => "direct authority rollback failed: "@ + e@,
        },
{
    let mut v = chars_of(primary);
    push_str(&mut v, "; ");
    match rollback {
        Ok(()) => push_str(&mut v, "direct authority rollback completed"),
        Err(e) => {
            push_str(&mut v, "direct authority rollback failed: ");
            push_str(&mut v, e.as_str());
        },
    }
    string_from_chars(&v)
}

} // verus!
