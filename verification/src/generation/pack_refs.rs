//! The canonical pack files that a predecessor authority still references:
//! one per live record of its object pack and tree pack tables.

use vstd::bytes::*;
use vstd::prelude::*;

use crate::generation::capture::layout_one;
use crate::generation::content_closure::raw_record;
use crate::ids::{object_pack_id_from_hash48, spec_hash48_id, tree_pack_id_from_hash48};
use crate::schema::records::{pack_hash48_of, spec_pack_hash48};
use crate::text::{chars_of, push_decimal, push_str, string_from_chars};

verus! {

/// Width of a predecessor (`u32-time-v0`) object pack or tree pack record.
pub const PREDECESSOR_PACK_RECORD_SIZE: usize = 28;

/// A predecessor pack record is live when its tombstone bit is clear.
pub open spec fn pack_record_live(raw: Seq<u8>) -> bool {
    raw[0] & 0x80u8 == 0
}

/// The 48-bit pack hash carried at bytes 2..8 of a pack record.
pub open spec fn pack_record_hash48(raw: Seq<u8>) -> u64 {
    spec_pack_hash48(
        spec_u16_from_le_bytes(raw.subrange(2, 4)),
        spec_u32_from_le_bytes(raw.subrange(4, 8)),
    )
}

/// Hashes of the live records among the first `n` records of a predecessor
/// pack table.
pub open spec fn live_pack_hashes(file: Seq<u8>, n: nat) -> Set<u64>
    decreases n,
{
    if n == 0 {
        Set::empty()
    } else {
        let raw = raw_record(Some(file), 28, n - 1);
        let prev = live_pack_hashes(file, (n - 1) as nat);
        if pack_record_live(raw) {
            prev.insert(pack_record_hash48(raw))
        } else {
            prev
        }
    }
}

/// A pack table that can be read for its references: absent, or layout 1
/// with a body of whole 28-byte records.
pub open spec fn pack_table_readable(file: Option<Seq<u8>>) -> bool {
    match file {
        None => true,
        Some(f) => layout_one(f) && (f.len() - 4) % 28 == 0,
    }
}

/// The pack hashes that a pack table references: those of its live records.
pub open spec fn referenced_pack_hashes(file: Option<Seq<u8>>) -> Set<u64> {
    match file {
        None => Set::empty(),
        Some(f) => live_pack_hashes(f, ((f.len() - 4) / 28) as nat),
    }
}

/// The repository-relative path of a canonical pack file.
pub open spec fn pack_file_path(directory: Seq<char>, prefix: Seq<char>, hash48: u64) -> Seq<
    char,
> {
    ".ait/objects/"@ + directory + "/"@ + spec_hash48_id(prefix, hash48) + ".zstpack"@
}

pub open spec fn strictly_increasing(s: Seq<u64>) -> bool {
    forall|i: int, j: int| 0 <= i < j < s.len() ==> s[i] < s[j]
}

pub open spec fn opt_bytes(file: Option<&[u8]>) -> Option<Seq<u8>> {
    match file {
        Some(b) => Some(b@),
        None => None,
    }
}

/// Adds `h` to a strictly increasing sequence, keeping it strictly
/// increasing.
fn insert_sorted(v: &mut Vec<u64>, h: u64)
    requires
        strictly_increasing(old(v)@),
    ensures
        strictly_increasing(final(v)@),
        final(v)@.to_set() == old(v)@.to_set().insert(h),
{
    let ghost s = v@;
    let mut i: usize = 0;
    while i < v.len() && v[i] < h
        invariant
            v@ == s,
            strictly_increasing(s),
            i <= s.len(),
            forall|k: int| 0 <= k < i ==> s[k] < h,
        decreases s.len() - i,
    {
        i = i + 1;
    }
    if i < v.len() && v[i] == h {
        assert(s.to_set().insert(h) =~= s.to_set()) by {
            assert(s.contains(h)) by {
                assert(s[i as int] == h);
            }
        }
        return;
    }
    v.insert(i, h);
    proof {
        s.insert_ensures(i as int, h);
        let t = v@;
        assert(strictly_increasing(t)) by {
            assert forall|a: int, b: int| 0 <= a < b < t.len() implies t[a] < t[b] by {
                if b < i {
                } else if b == i {
                } else if a < i {
                    assert(t[b] == s[b - 1]);
                } else if a == i {
                    assert(t[b] == s[b - 1]);
                    assert(h < s[i as int]);
                    if b - 1 > i {
                        assert(s[i as int] < s[b - 1]);
                    }
                } else {
                    assert(t[a] == s[a - 1]);
                    assert(t[b] == s[b - 1]);
                }
            }
        }
        assert(t.to_set() =~= s.to_set().insert(h)) by {
            assert forall|x: u64| t.contains(x) implies s.to_set().insert(h).contains(x) by {
                let k = choose|k: int| 0 <= k < t.len() && t[k] == x;
                if k < i {
                    assert(s[k] == x);
                } else if k > i {
                    assert(s[k - 1] == x);
                }
            }
            assert forall|x: u64| s.to_set().insert(h).contains(x) implies t.contains(x) by {
                if x == h {
                    assert(t[i as int] == h);
                } else {
                    let k = choose|k: int| 0 <= k < s.len() && s[k] == x;
                    if k < i {
                        assert(t[k] == x);
                    } else {
                        assert(t[k + 1] == x);
                    }
                }
            }
        }
    }
}

/// The hashes of the live records of one pack table, ascending and without
/// repeats. Fails, naming the table, exactly when the table is not readable.
fn live_pack_hashes_of(file: &[u8], name: &str) -> (r: Result<Vec<u64>, String>)
    ensures
        r is Ok <==> pack_table_readable(Some(file@)),
        r matches Ok(v) ==> strictly_increasing(v@) && v@.to_set() == referenced_pack_hashes(
            Some(file@),
        ),
{
    let ghost f = file@;
    if file.len() < 4 {
        let mut v = chars_of("failed to read ");
        push_str(&mut v, name);
        push_str(&mut v, " header: the file is shorter than its layout header");
        return Err(string_from_chars(&v));
    }
    if u32_from_le_bytes(vstd::slice::slice_subrange(file, 0, 4)) != 1 {
        let mut v = chars_of(name);
        push_str(&mut v, " does not have layout_id 1");
        return Err(string_from_chars(&v));
    }
    let size = PREDECESSOR_PACK_RECORD_SIZE;
    if (file.len() - 4) % size != 0 {
        let mut v = chars_of(name);
        push_str(&mut v, " is not aligned to explicit ");
        push_decimal(&mut v, size as u64);
        push_str(&mut v, "-byte records");
        return Err(string_from_chars(&v));
    }
    let count = (file.len() - 4) / size;
    let ghost n = count as nat;
    assert(f.len() == 4 + 28 * n) by (nonlinear_arith)
        requires
            (f.len() - 4) % 28 == 0,
            n == (f.len() - 4) / 28,
            f.len() >= 4,
    ;
    let mut out: Vec<u64> = Vec::new();
    let mut i: usize = 0;
    while i < count
        invariant
            f == file@,
            n == count,
            f.len() == 4 + 28 * n,
            i <= count,
            strictly_increasing(out@),
            out@.to_set() == live_pack_hashes(f, i as nat),
        decreases count - i,
    {
        assert(4 + (i + 1) * 28 <= f.len()) by (nonlinear_arith)
            requires
                i < n,
                f.len() == 4 + 28 * n,
        ;
        assert(i * 28 + 28 == (i + 1) * 28) by (nonlinear_arith);
        let total = file.len();
        assert(4 + i * 28 + 28 <= total);
        let start = 4 + i * 28;
        let raw = vstd::slice::slice_subrange(file, start, start + 28);
        assert(raw@ == raw_record(Some(f), 28, i as int));
        if raw[0] & 0x80u8 == 0 {
            let hi = u16_from_le_bytes(vstd::slice::slice_subrange(raw, 2, 4));
            let lo = u32_from_le_bytes(vstd::slice::slice_subrange(raw, 4, 8));
            let hash48 = pack_hash48_of(hi, lo);
            insert_sorted(&mut out, hash48);
        }
        i = i + 1;
    }
    assert(out@.to_set() == referenced_pack_hashes(Some(f)));
    Ok(out)
}

/// The canonical pack file of each hash, in the order of the hashes.
fn pack_paths(hashes: &Vec<u64>, tree: bool) -> (r: Vec<String>)
    ensures
        r@.len() == hashes@.len(),
        forall|k: int|
            0 <= k < r@.len() ==> (#[trigger] r@[k])@ == (if tree {
                pack_file_path("tree-packs"@, "TPK-"@, hashes@[k])
            } else {
                pack_file_path("packs"@, "PCK-"@, hashes@[k])
            }),
{
    let mut out: Vec<String> = Vec::new();
    let mut k: usize = 0;
    while k < hashes.len()
        invariant
            k <= hashes@.len(),
            out@.len() == k,
            forall|j: int|
                0 <= j < k ==> (#[trigger] out@[j])@ == (if tree {
                    pack_file_path("tree-packs"@, "TPK-"@, hashes@[j])
                } else {
                    pack_file_path("packs"@, "PCK-"@, hashes@[j])
                }),
        decreases hashes@.len() - k,
    {
        let (id, directory) = if tree {
            (tree_pack_id_from_hash48(hashes[k]), "tree-packs")
        } else {
            (object_pack_id_from_hash48(hashes[k]), "packs")
        };
        let mut v = chars_of(".ait/objects/");
        push_str(&mut v, directory);
        push_str(&mut v, "/");
        push_str(&mut v, id.as_str());
        push_str(&mut v, ".zstpack");
        let path = string_from_chars(&v);
        proof {
            reveal_strlit("tree-packs");
            reveal_strlit("packs");
        }
        assert(path@ =~= (if tree {
            pack_file_path("tree-packs"@, "TPK-"@, hashes@[k as int])
        } else {
            pack_file_path("packs"@, "PCK-"@, hashes@[k as int])
        }));
        out.push(path);
        k = k + 1;
    }
    out
}

/// The canonical pack files that a predecessor authority references, given
/// its object pack and tree pack tables (`None` for a table that is not
/// there): first the object packs, then the tree packs, each ascending by
/// pack hash and without repeats. Fails exactly when a table that is there
/// does not have layout 1 or is not made of whole 28-byte records.
pub fn referenced_pack_paths(object_pack: Option<&[u8]>, tree_pack: Option<&[u8]>) -> (r: Result<
    Vec<String>,
    String,
>)
    ensures
        r is Ok <==> pack_table_readable(opt_bytes(object_pack)) && pack_table_readable(
            opt_bytes(tree_pack),
        ),
        r matches Ok(paths) ==> exists|po: Seq<u64>, pt: Seq<u64>|
            {
                &&& strictly_increasing(po)
                &&& po.to_set() == referenced_pack_hashes(opt_bytes(object_pack))
                &&& strictly_increasing(pt)
                &&& pt.to_set() == referenced_pack_hashes(opt_bytes(tree_pack))
                &&& paths@.len() == po.len() + pt.len()
                &&& forall|k: int|
                    0 <= k < po.len() ==> (#[trigger] paths@[k])@ == pack_file_path(
                        "packs"@,
                        "PCK-"@,
                        po[k],
                    )
                &&& forall|k: int|
                    0 <= k < pt.len() ==> (#[trigger] paths@[po.len() + k])@ == pack_file_path(
                        "tree-packs"@,
                        "TPK-"@,
                        pt[k],
                    )
            },
{
    let object_hashes = match object_pack {
        Some(file) => live_pack_hashes_of(file, "object_pack.bin")?,
        None => Vec::new(),
    };
    let tree_hashes = match tree_pack {
        Some(file) => live_pack_hashes_of(file, "tree_pack.bin")?,
        None => Vec::new(),
    };
    assert(object_hashes@.to_set() =~= referenced_pack_hashes(opt_bytes(object_pack)));
    assert(tree_hashes@.to_set() =~= referenced_pack_hashes(opt_bytes(tree_pack)));
    let mut paths = pack_paths(&object_hashes, false);
    let mut tree_paths = pack_paths(&tree_hashes, true);
    let ghost first = paths@;
    let ghost second = tree_paths@;
    paths.append(&mut tree_paths);
    assert(paths@ == first + second);
    assert forall|k: int| 0 <= k < tree_hashes@.len() implies (#[trigger] paths@[object_hashes@.len()
        + k])@ == pack_file_path("tree-packs"@, "TPK-"@, tree_hashes@[k]) by {
        assert(paths@[object_hashes@.len() + k] == second[k]);
    }
    Ok(paths)
}

} // verus!
