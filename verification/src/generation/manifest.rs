//! The per-file manifest of a generation, its fixed-record counts and the
//! content fingerprint over all files.

use vstd::prelude::*;
use vstd::utf8::encode_utf8;

use crate::digest::{sha256_digest, spec_sha256};
use crate::schema::codec::{le64, push_slice, push_u64};
use crate::text::{
    chars_eq_str, chars_of, hex_lower, push_decimal, push_str, spec_decimal, spec_hex_lower,
    spec_strip_prefix, strip_prefix_chars, string_from_chars,
};

verus! {

/// One file of a generation: its path below the generation root, its size,
/// its lower-case hex SHA-256, and its record count when it is a fixed
/// record file.
#[derive(Clone, Debug, PartialEq, Eq)]
pub struct GenerationFileManifest {
    pub relative_path: String,
    pub byte_size: u64,
    pub sha256: String,
    pub record_count: Option<u64>,
}

/// Record size of each live fixed-record table of a captured generation.
pub open spec fn fixed_record_size(name: Seq<char>) -> Option<u64> {
    if name == "plan.bin"@ {
        Some(48)
    } else if name == "plan_revision.bin"@ {
        Some(56)
    } else if name == "plan_item.bin"@ {
        Some(16)
    } else if name == "task.bin"@ {
        Some(64)
    } else if name == "task_change_index.bin"@ {
        Some(8)
    } else if name == "task_land_index.bin"@ {
        Some(8)
    } else if name == "change.bin"@ {
        Some(68)
    } else if name == "change_land_index.bin"@ {
        Some(8)
    } else if name == "land.bin"@ {
        Some(44)
    } else if name == "blob.bin"@ {
        Some(64)
    } else if name == "snapshot.bin"@ {
        Some(88)
    } else if name == "object_pack.bin"@ {
        Some(32)
    } else if name == "object_pack_member.bin"@ {
        Some(16)
    } else if name == "tree_pack.bin"@ {
        Some(32)
    } else if name == "tree.bin"@ {
        Some(20)
    } else if name == "line.bin"@ {
        Some(40)
    } else if name == "stash.bin"@ {
        Some(8)
    } else {
        None
    }
}

pub(crate) fn fixed_record_size_of(name: &Vec<char>) -> (r: Option<u64>)
    ensures
        r == fixed_record_size(name@),
{
    if chars_eq_str(name, "plan.bin") {
        Some(48)
    } else if chars_eq_str(name, "plan_revision.bin") {
        Some(56)
    } else if chars_eq_str(name, "plan_item.bin") {
        Some(16)
    } else if chars_eq_str(name, "task.bin") {
        Some(64)
    } else if chars_eq_str(name, "task_change_index.bin") {
        Some(8)
    } else if chars_eq_str(name, "task_land_index.bin") {
        Some(8)
    } else if chars_eq_str(name, "change.bin") {
        Some(68)
    } else if chars_eq_str(name, "change_land_index.bin") {
        Some(8)
    } else if chars_eq_str(name, "land.bin") {
        Some(44)
    } else if chars_eq_str(name, "blob.bin") {
        Some(64)
    } else if chars_eq_str(name, "snapshot.bin") {
        Some(88)
    } else if chars_eq_str(name, "object_pack.bin") {
        Some(32)
    } else if chars_eq_str(name, "object_pack_member.bin") {
        Some(16)
    } else if chars_eq_str(name, "tree_pack.bin") {
        Some(32)
    } else if chars_eq_str(name, "tree.bin") {
        Some(20)
    } else if chars_eq_str(name, "line.bin") {
        Some(40)
    } else if chars_eq_str(name, "stash.bin") {
        Some(8)
    } else {
        None
    }
}

/// The record count of a file below `local/` whose table has a fixed record
/// size, or the message that refuses its size.
pub open spec fn spec_fixed_record_count(relative_path: Seq<char>, byte_size: u64) -> Result<
    Option<u64>,
    Seq<char>,
> {
    match spec_strip_prefix(relative_path, "local/"@) {
        None => Ok(None),
        Some(name) => match fixed_record_size(name) {
            None => Ok(None),
            Some(size) => if byte_size < 4 {
                Err("Binary DB file is shorter than its header: "@ + relative_path)
            } else if (byte_size - 4) % (size as int) != 0 {
                Err(
                    "Binary DB file is misaligned for "@ + spec_decimal(size as nat)
                        + "-byte records: "@ + relative_path,
                )
            } else {
                Ok(Some(((byte_size - 4) / (size as int)) as u64))
            },
        },
    }
}

/// The record count of a file below `local/` whose table has a fixed record
/// size; `None` for any other file, retired tables included. Fails when the
/// file is shorter than its header or not a whole number of records.
pub fn fixed_record_count(relative_path: &str, byte_size: u64) -> (r: Result<Option<u64>, String>)
    ensures
        match r {
            Ok(n) => spec_fixed_record_count(relative_path@, byte_size) == Ok::<Option<u64>, Seq<char>>(n),
            Err(e) => spec_fixed_record_count(relative_path@, byte_size) == Err::<Option<u64>, Seq<char>>(e@),
        },
        match spec_strip_prefix(relative_path@, "local/"@) {
            None => r == Ok::<Option<u64>, String>(None),
            Some(name) => match fixed_record_size(name) {
                None => r == Ok::<Option<u64>, String>(None),
                Some(size) => {
                    &&& r is Ok <==> byte_size >= 4 && (byte_size - 4) % (size as int) == 0
                    &&& r matches Ok(n) ==> n == Some(((byte_size - 4) / (size as int)) as u64)
                    &&& byte_size < 4 ==> (r matches Err(e) ==> e@
                        == "Binary DB file is shorter than its header: "@ + relative_path@)
                    &&& byte_size >= 4 && (byte_size - 4) % (size as int) != 0 ==> (r matches Err(
                        e,
                    ) ==> e@ == "Binary DB file is misaligned for "@ + spec_decimal(size as nat)
                        + "-byte records: "@ + relative_path@)
                },
            },
        },
{
    let path = chars_of(relative_path);
    let name = match strip_prefix_chars(&path, "local/") {
        Some(name) => name,
        None => return Ok(None),
    };
    let record_size = match fixed_record_size_of(&name) {
        Some(size) => size,
        None => return Ok(None),
    };
    if byte_size < 4 {
        let mut v = chars_of("Binary DB file is shorter than its header: ");
        push_str(&mut v, relative_path);
        return Err(string_from_chars(&v));
    }
    let body = byte_size - 4;
    if body % record_size != 0 {
        let mut v = chars_of("Binary DB file is misaligned for ");
        push_decimal(&mut v, record_size);
        push_str(&mut v, "-byte records: ");
        push_str(&mut v, relative_path);
        return Err(string_from_chars(&v));
    }
    Ok(Some(body / record_size))
}

/// The bytes that the content fingerprint hashes: for each file in order,
/// its UTF-8 path, a zero byte, its size as little-endian `u64`, its UTF-8
/// hex digest and a zero byte.
pub open spec fn fingerprint_input(files: Seq<GenerationFileManifest>) -> Seq<u8>
    decreases files.len(),
{
    if files.len() == 0 {
        Seq::empty()
    } else {
        let f = files.last();
        fingerprint_input(files.drop_last()) + encode_utf8(f.relative_path@) + seq![0u8] + le64(
            f.byte_size,
        ) + encode_utf8(f.sha256@) + seq![0u8]
    }
}

/// The lower-case hex SHA-256 of the fingerprint input of `files`.
pub fn fingerprint_files(files: &[GenerationFileManifest]) -> (r: String)
    ensures
        r@ == spec_hex_lower(spec_sha256(fingerprint_input(files@))),
{
    let mut input: Vec<u8> = Vec::new();
    let mut i: usize = 0;
    while i < files.len()
        invariant
            i <= files@.len(),
            input@ == fingerprint_input(files@.subrange(0, i as int)),
        decreases files@.len() - i,
    {
        let file = &files[i];
        push_slice(&mut input, file.relative_path.as_str().as_bytes());
        input.push(0);
        push_u64(&mut input, file.byte_size);
        push_slice(&mut input, file.sha256.as_str().as_bytes());
        input.push(0);
        proof {
            let prefix = files@.subrange(0, i + 1);
            assert(prefix.drop_last() =~= files@.subrange(0, i as int));
            assert(prefix.last() == files@[i as int]);
        }
        i = i + 1;
    }
    proof {
        assert(files@.subrange(0, files@.len() as int) =~= files@);
    }
    let digest = sha256_digest(input.as_slice());
    hex_lower(&digest)
}

/// The manifest entry of a file copied into a generation: its path, its
/// size and SHA-256 as read from `bytes`, and, for a fixed-record table, its
/// record count; fails exactly as `fixed_record_count` does.
pub fn copied_file_manifest(relative_path: &str, bytes: &[u8]) -> (r: Result<GenerationFileManifest, String>)
    ensures
        match r {
            Ok(m) => {
                &&& m.relative_path@ == relative_path@
                &&& m.byte_size == bytes@.len()
                &&& m.sha256@ == spec_hex_lower(spec_sha256(bytes@))
                &&& spec_fixed_record_count(relative_path@, bytes@.len() as u64) == Ok::<
                    Option<u64>,
                    Seq<char>,
                >(m.record_count)
            },
            Err(e) => spec_fixed_record_count(relative_path@, bytes@.len() as u64) == Err::<
                Option<u64>,
                Seq<char>,
            >(e@),
        },
{
    let byte_size = bytes.len() as u64;
    let record_count = fixed_record_count(relative_path, byte_size)?;
    Ok(
        GenerationFileManifest {
            relative_path: crate::text::owned(relative_path),
            byte_size,
            sha256: crate::digest::sha256_hex(bytes),
            record_count,
        },
    )
}

} // verus!
